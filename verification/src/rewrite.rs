use crate::marker::{
    has_marker, lemma_progress_unique, lemma_step, letter_matches, next_progress, occurs_at, tracks,
};
use vstd::prelude::*;
use vstd::std_specs::iter::IteratorSpec;

verus! {

broadcast use vstd::string::group_string_axioms;

/// Stands for a lowercase `r` inside a rewritten occurrence: mathematical sans-serif small r.
pub const SMALL_GLYPH: char = '\u{1D5CB}';

/// Stands for an uppercase `R` inside a rewritten occurrence: mathematical sans-serif capital R.
pub const CAPITAL_GLYPH: char = '\u{1D5B1}';

/// The character that replaces `c` at the third position of an occurrence. It goes by the
/// case of the character that was read, not by the marker's own spelling.
pub open spec fn glyph(c: char) -> char {
    if c == 'r' {
        SMALL_GLYPH
    } else if c == 'R' {
        CAPITAL_GLYPH
    } else {
        c
    }
}

/// The text `s` with every occurrence of the marker rewritten: the character at the third
/// position of an occurrence gives way to its glyph, every other character stays.
pub open spec fn rewritten(s: Seq<char>) -> Seq<char> {
    Seq::new(
        s.len(),
        |k: int|
            if occurs_at(s, k - 2) {
                glyph(s[k])
            } else {
                s[k]
            },
    )
}

/// The fragments in order, as one text.
pub open spec fn concat(frags: Seq<Seq<char>>) -> Seq<char>
    decreases frags.len(),
{
    if frags.len() == 0 {
        Seq::empty()
    } else {
        concat(frags.drop_last()) + frags.last()
    }
}

/// The texts that the strings of `frags` hold.
pub open spec fn texts(frags: Seq<String>) -> Seq<Seq<char>> {
    Seq::new(frags.len(), |i: int| frags[i]@)
}

/// What one more character does to the rewritten text: it is appended as it is, and where
/// it completes an occurrence, the character before it gives way to its glyph.
pub proof fn lemma_rewritten_push(s: Seq<char>, c: char)
    ensures
        occurs_at(s.push(c), s.len() - 3) ==> rewritten(s.push(c)) == rewritten(s).update(
            s.len() - 1,
            glyph(s[s.len() - 1]),
        ).push(c),
        !occurs_at(s.push(c), s.len() - 3) ==> rewritten(s.push(c)) == rewritten(s).push(c),
{
    let t = s.push(c);
    let n = s.len() as int;
    assert(forall|k: int| 0 <= k < n ==> t[k] == s[k]);
    assert forall|j: int| j + 4 <= n implies #[trigger] occurs_at(t, j) == occurs_at(s, j) by {}
    assert(!occurs_at(t, n - 2));
    if occurs_at(t, n - 3) {
        assert(!occurs_at(s, n - 3));
        assert(rewritten(t) =~= rewritten(s).update(n - 1, glyph(s[n - 1])).push(c));
    } else {
        assert(rewritten(t) =~= rewritten(s).push(c));
    }
}

/// A text without the marker is rewritten to itself.
pub proof fn lemma_rewritten_identity(s: Seq<char>)
    requires
        !has_marker(s),
    ensures
        rewritten(s) == s,
{
    assert forall|k: int| 0 <= k < s.len() implies rewritten(s)[k] == s[k] by {
        assert(!occurs_at(s, k - 2));
    }
    assert(rewritten(s) =~= s);
}

/// Rewriting changes a text exactly when the marker occurs in it.
pub proof fn lemma_rewritten_differs_iff_marker(s: Seq<char>)
    ensures
        rewritten(s) != s <==> has_marker(s),
{
    if has_marker(s) {
        let i = choose|i: int| occurs_at(s, i);
        assert(occurs_at(s, (i + 2) - 2));
        assert(rewritten(s)[i + 2] == glyph(s[i + 2]));
        assert(rewritten(s)[i + 2] != s[i + 2]);
    } else {
        lemma_rewritten_identity(s);
    }
}

/// A text rewritten as one fragment and rewritten as any fragments that join to it
/// come out the same.
pub proof fn lemma_chunking_invariance(frags: Seq<Seq<char>>, whole: Seq<char>)
    requires
        concat(frags) == whole,
    ensures
        concat(seq![whole]) == whole,
        rewritten(concat(frags)) == rewritten(concat(seq![whole])),
{
    let one = seq![whole];
    assert(one.drop_last() =~= Seq::<Seq<char>>::empty());
    assert(concat(one.drop_last()) =~= Seq::<char>::empty());
    assert(concat(one) =~= whole);
}

/// `String::push` of std: the string afterwards is the string before with `ch` appended.
pub assume_specification[ String::push ](s: &mut String, ch: char)
    ensures
        final(s)@ == old(s)@.push(ch),
;

/// The character that replaces `c` at the third position of an occurrence.
pub fn substitute(c: char) -> (r: char)
    ensures
        r == glyph(c),
{
    if c == 'r' {
        SMALL_GLYPH
    } else if c == 'R' {
        CAPITAL_GLYPH
    } else {
        c
    }
}

/// A call that the builder's protocol forbids.
#[derive(Debug, Clone, Copy, PartialEq, Eq)]
pub enum UsageError {
    /// The builder was finalized before this call.
    Finalized,
}

/// Rewrites a text that arrives in fragments, in one forward pass.
pub struct TransformBuilder {
    held: Vec<char>,
    output: String,
    finished: bool,
    seen: Ghost<Seq<char>>,
}

impl TransformBuilder {
    /// The text consumed so far: the fragments written, in order.
    pub closed spec fn consumed(&self) -> Seq<char> {
        self.seen@
    }

    /// Whether `finalize` has been called.
    pub closed spec fn is_finished(&self) -> bool {
        self.finished
    }

    /// The characters kept back as the start of an occurrence that is not yet complete.
    pub closed spec fn held(&self) -> Seq<char> {
        self.held@
    }

    /// The characters given out so far.
    pub closed spec fn output(&self) -> Seq<char> {
        self.output@
    }

    /// Output and held characters together are the consumed text rewritten, and the held
    /// characters are the end of the consumed text.
    pub closed spec fn wf(&self) -> bool {
        let n = self.seen@.len() as int;
        let p = self.held@.len() as int;
        !self.finished ==> {
            &&& tracks(self.seen@, p)
            &&& self.held@ == self.seen@.skip(n - p)
            &&& self.output@ + self.held@ == rewritten(self.seen@)
        }
    }

    /// What a builder holds goes by the text it has consumed alone, however that text was
    /// cut into fragments.
    pub proof fn lemma_fragments_do_not_matter(self, other: Self)
        requires
            self.wf(),
            other.wf(),
            !self.is_finished(),
            !other.is_finished(),
            self.consumed() == other.consumed(),
        ensures
            self.held() == other.held(),
            self.output() == other.output(),
            self.output() + self.held() == rewritten(self.consumed()),
    {
        lemma_progress_unique(self.seen@, self.held@.len() as int, other.held@.len() as int);
        let cut = self.output@.len() as int;
        assert((self.output@ + self.held@).len() == (other.output@ + other.held@).len());
        assert(other.output@.len() == cut);
        assert(self.output@ =~= (self.output@ + self.held@).take(cut));
        assert(other.output@ =~= (other.output@ + other.held@).take(cut));
    }

    /// A builder that has consumed nothing.
    pub fn new() -> (b: Self)
        ensures
            b.wf(),
            !b.is_finished(),
            b.consumed() == Seq::<char>::empty(),
    {
        let b = TransformBuilder {
            held: Vec::new(),
            output: String::new(),
            finished: false,
            seen: Ghost(Seq::empty()),
        };
        assert(b.output@ + b.held@ =~= rewritten(b.seen@));
        assert(b.held@ =~= b.seen@.skip(0));
        b
    }

    /// Gives the held characters out as they are.
    fn flush(&mut self)
        ensures
            final(self).output@ == old(self).output@ + old(self).held@,
            final(self).held@ == Seq::<char>::empty(),
            final(self).finished == old(self).finished,
            final(self).seen == old(self).seen,
    {
        let n = self.held.len();
        let mut i: usize = 0;
        while i < n
            invariant
                i <= n,
                n == self.held@.len(),
                self.held == old(self).held,
                self.finished == old(self).finished,
                self.seen == old(self).seen,
                self.output@ == old(self).output@ + old(self).held@.take(i as int),
            decreases n - i,
        {
            let c = self.held[i];
            self.output.push(c);
            assert(old(self).held@.take(i + 1) =~= old(self).held@.take(i as int).push(c));
            i = i + 1;
        }
        assert(old(self).held@.take(n as int) =~= old(self).held@);
        self.held.clear();
    }

    /// Consumes one character.
    fn step(&mut self, c: char)
        requires
            old(self).wf(),
            !old(self).is_finished(),
        ensures
            final(self).wf(),
            !final(self).is_finished(),
            final(self).consumed() == old(self).consumed().push(c),
    {
        let ghost s = self.seen@;
        let ghost t = s.push(c);
        let ghost n = s.len() as int;
        let ghost p = self.held@.len() as int;
        let ghost out = self.output@;
        let ghost kept = self.held@;
        proof {
            lemma_step(s, p, c);
            lemma_rewritten_push(s, c);
            assert(forall|k: int| 0 <= k < n ==> t[k] == s[k]);
            assert(forall|k: int| 0 <= k < p ==> kept[k] == s[n - p + k]);
            assert(rewritten(s).len() == n);
        }
        let progress = self.held.len();
        if letter_matches(c, progress) {
            if progress == 3 {
                let first = self.held[0];
                let second = self.held[1];
                let third = self.held[2];
                self.output.push(first);
                self.output.push(second);
                self.output.push(substitute(third));
                self.output.push(c);
                self.held.clear();
                proof {
                    assert(self.output@ + self.held@ =~= (out + kept).update(
                        n - 1,
                        glyph(s[n - 1]),
                    ).push(c));
                }
            } else {
                self.held.push(c);
                proof {
                    assert(self.output@ + self.held@ =~= (out + kept).push(c));
                }
            }
        } else {
            self.flush();
            if letter_matches(c, 0) {
                self.held.push(c);
            } else {
                self.output.push(c);
            }
            proof {
                assert(self.output@ + self.held@ =~= (out + kept).push(c));
            }
        }
        self.seen = Ghost(t);
        proof {
            let q = self.held@.len() as int;
            assert(q == next_progress(p, c));
            assert(self.held@ =~= t.skip(n + 1 - q));
        }
    }

    /// Consumes the characters of `text`. After `finalize` nothing is consumed, and the
    /// call is answered with an error.
    pub fn write_fragment(&mut self, text: &str) -> (r: Result<(), UsageError>)
        requires
            old(self).wf(),
        ensures
            final(self).wf(),
            final(self).is_finished() == old(self).is_finished(),
            old(self).is_finished() ==> r == Err::<(), UsageError>(UsageError::Finalized)
                && *final(self) == *old(self),
            !old(self).is_finished() ==> r == Ok::<(), UsageError>(())
                && final(self).consumed() == old(self).consumed() + text@,
    {
        if self.finished {
            return Err(UsageError::Finalized);
        }
        self.feed(text);
        Ok(())
    }

    /// Consumes the characters of `text`, one by one.
    fn feed(&mut self, text: &str)
        requires
            old(self).wf(),
            !old(self).is_finished(),
        ensures
            final(self).wf(),
            !final(self).is_finished(),
            final(self).consumed() == old(self).consumed() + text@,
    {
        let ghost before = self.seen@;
        let mut it = text.chars();
        let ghost mut k: int = 0;
        proof {
            assert(before + text@.take(0) =~= before);
        }
        loop
            invariant
                0 <= k <= text@.len(),
                it.remaining() == text@.skip(k),
                it.obeys_prophetic_iter_laws(),
                self.seen@ == before + text@.take(k),
                !self.finished,
                self.wf(),
            ensures
                k == text@.len(),
            decreases text@.len() - k,
        {
            match it.next() {
                None => {
                    assert(text@.skip(k).len() == 0);
                    break ;
                },
                Some(c) => {
                    proof {
                        assert(text@.take(k + 1) =~= text@.take(k).push(c));
                        assert(before + text@.take(k + 1) =~= (before + text@.take(k)).push(c));
                        assert(text@.skip(k).drop_first() =~= text@.skip(k + 1));
                        k = k + 1;
                    }
                    self.step(c);
                },
            }
        }
        proof {
            assert(text@.take(k) =~= text@);
        }
    }

    /// Ends the pass: gives out the held characters as they are and returns the whole
    /// output. A second call is answered with an error.
    pub fn finalize(&mut self) -> (r: Result<String, UsageError>)
        requires
            old(self).wf(),
        ensures
            final(self).wf(),
            final(self).is_finished(),
            old(self).is_finished() ==> r == Err::<String, UsageError>(UsageError::Finalized)
                && *final(self) == *old(self),
            !old(self).is_finished() ==> r is Ok && r->Ok_0@ == rewritten(old(self).consumed()),
    {
        if self.finished {
            return Err(UsageError::Finalized);
        }
        Ok(self.drain())
    }

    /// Gives out the held characters, marks the builder finished and hands over the output.
    fn drain(&mut self) -> (out: String)
        requires
            old(self).wf(),
            !old(self).is_finished(),
        ensures
            final(self).wf(),
            final(self).is_finished(),
            out@ == rewritten(old(self).consumed()),
    {
        self.flush();
        self.finished = true;
        let mut out = String::new();
        core::mem::swap(&mut self.output, &mut out);
        assert(out@ =~= old(self).output@ + old(self).held@);
        out
    }
}

/// The text with every occurrence of the marker rewritten.
pub fn rewrite(text: &str) -> (out: String)
    ensures
        out@ == rewritten(text@),
{
    let mut builder = TransformBuilder::new();
    builder.feed(text);
    assert(Seq::<char>::empty() + text@ =~= text@);
    builder.drain()
}

/// The fragments, taken as one text, with every occurrence of the marker rewritten: also
/// one that lies across the border of two fragments.
pub fn rewrite_fragments(frags: &Vec<String>) -> (out: String)
    ensures
        out@ == rewritten(concat(texts(frags@))),
{
    let mut builder = TransformBuilder::new();
    let ghost all = texts(frags@);
    let mut i: usize = 0;
    assert(all.take(0) =~= Seq::<Seq<char>>::empty());
    while i < frags.len()
        invariant
            i <= frags.len(),
            all == texts(frags@),
            builder.wf(),
            !builder.is_finished(),
            builder.consumed() == concat(all.take(i as int)),
        decreases frags.len() - i,
    {
        builder.feed(frags[i].as_str());
        proof {
            let next = all.take(i + 1);
            assert(next.drop_last() =~= all.take(i as int));
            assert(next.last() == frags@[i as int]@);
        }
        i = i + 1;
    }
    assert(all.take(i as int) =~= all);
    builder.drain()
}

} // verus!
