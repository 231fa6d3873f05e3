//! The character cursor: a window `[start, current)` over an immutable text.

use vstd::prelude::*;

verus! {

/// What a cursor is, as plain mathematics: the text it owns and the two
/// positions of the lexeme window.
pub struct SourceView {
    pub text: Seq<char>,
    pub start: nat,
    pub current: nat,
}

impl SourceView {
    /// The cursor at the beginning of `text`, with an empty lexeme.
    pub open spec fn fresh(text: Seq<char>) -> SourceView {
        SourceView { text, start: 0, current: 0 }
    }

    /// The positions are ordered and lie inside the text.
    pub open spec fn wf(self) -> bool {
        self.start <= self.current <= self.text.len()
    }

    /// Nothing is left to read.
    pub open spec fn finished(self) -> bool {
        self.current >= self.text.len()
    }

    /// The character that the next read yields, if any.
    pub open spec fn next_char(self) -> Option<char> {
        if self.finished() {
            None
        } else {
            Some(self.text[self.current as int])
        }
    }

    /// The cursor after one read: one character further, unless finished.
    pub open spec fn advanced(self) -> SourceView {
        if self.finished() {
            self
        } else {
            SourceView { current: self.current + 1, ..self }
        }
    }

    /// The cursor after the lexeme start has been moved up to the read position.
    pub open spec fn restarted(self) -> SourceView {
        SourceView { start: self.current, ..self }
    }

    /// The characters of the current lexeme.
    pub open spec fn lexeme(self) -> Seq<char> {
        self.text.subrange(self.start as int, self.current as int)
    }

    /// The cursor after `n` reads in a row.
    pub open spec fn advanced_by(self, n: nat) -> SourceView
        decreases n,
    {
        if n == 0 {
            self
        } else {
            self.advanced().advanced_by((n - 1) as nat)
        }
    }

    /// The characters that reading until finished yields, in the order in
    /// which they are read.
    pub open spec fn remaining_reads(self) -> Seq<char>
        decreases self.text.len() - self.current,
    {
        match self.next_char() {
            Some(c) => seq![c] + self.advanced().remaining_reads(),
            None => Seq::empty(),
        }
    }
}

/// Reading keeps a cursor well formed, and `n` reads that the text still
/// has room for move the read position by exactly `n`.
pub proof fn lemma_advanced_by(v: SourceView, n: nat)
    requires
        v.wf(),
    ensures
        v.advanced_by(n).wf(),
        v.current + n <= v.text.len() ==> v.advanced_by(n) == (SourceView {
            current: v.current + n,
            ..v
        }),
    decreases n,
{
    if n > 0 {
        lemma_advanced_by(v.advanced(), (n - 1) as nat);
    }
}

/// Reading a cursor until it is finished yields the rest of its text,
/// character by character; from the beginning, the whole text.
pub proof fn lemma_reads_reproduce_text(v: SourceView)
    requires
        v.wf(),
    ensures
        v.remaining_reads() == v.text.skip(v.current as int),
        v.current == 0 ==> v.remaining_reads() == v.text,
    decreases v.text.len() - v.current,
{
    if !v.finished() {
        lemma_reads_reproduce_text(v.advanced());
    }
    assert(v.remaining_reads() =~= v.text.skip(v.current as int));
    assert(v.text.skip(0) =~= v.text);
}

/// After a reset and `n` reads, for any `n` up to what is left of the text,
/// the lexeme is exactly the `n` characters that those reads returned.
pub proof fn lemma_lexeme_after_reset(v: SourceView, n: nat)
    requires
        v.wf(),
        v.current + n <= v.text.len(),
    ensures
        v.restarted().advanced_by(n).lexeme() == v.text.subrange(
            v.current as int,
            (v.current + n) as int,
        ),
        v.restarted().advanced_by(n).lexeme().len() == n,
        forall|i: nat|
            i < n ==> #[trigger] v.restarted().advanced_by(i).next_char() == Some(
                v.restarted().advanced_by(n).lexeme()[i as int],
            ),
{
    let r = v.restarted();
    lemma_advanced_by(r, n);
    assert forall|i: nat| i < n implies #[trigger] r.advanced_by(i).next_char() == Some(
        r.advanced_by(n).lexeme()[i as int],
    ) by {
        lemma_advanced_by(r, i);
    }
}

/// `String::push` of the standard library: the character is appended to the
/// end of the string, and nothing else of the string changes.
pub assume_specification[ String::push ](s: &mut String, ch: char)
    ensures
        final(s)@ == old(s)@.push(ch),
;

/// A cursor over a text. It owns the characters and never changes them.
pub struct Source {
    text: Vec<char>,
    start: usize,
    current: usize,
}

impl View for Source {
    type V = SourceView;

    closed spec fn view(&self) -> SourceView {
        SourceView {
            text: self.text@,
            start: self.start as nat,
            current: self.current as nat,
        }
    }
}

impl Source {
    /// Holds of every cursor at all times.
    #[verifier::type_invariant]
    pub open spec fn inv(&self) -> bool {
        self@.wf()
    }

    /// A cursor at the beginning of `text`, with an empty lexeme.
    pub fn new(text: &str) -> (source: Source)
        ensures
            source@ == SourceView::fresh(text@),
    {
        let mut chars: Vec<char> = Vec::new();
        for c in it: text.chars()
            invariant
                chars@ == it.seq().take(it.index()),
                it.seq() == text@,
        {
            chars.push(c);
        }
        assert(chars@ =~= text@);
        Source { text: chars, start: 0, current: 0 }
    }

    /// Whether every character has been read.
    pub fn is_finished(&self) -> (finished: bool)
        ensures
            finished == self@.finished(),
            self@.wf(),
    {
        proof {
            use_type_invariant(self);
        }
        self.current >= self.text.len()
    }

    /// Reads one character and moves past it; `None` once finished.
    pub fn advance(&mut self) -> (c: Option<char>)
        ensures
            c == old(self)@.next_char(),
            final(self)@ == old(self)@.advanced(),
            old(self)@.wf(),
            final(self)@.wf(),
    {
        proof {
            use_type_invariant(&*self);
        }
        if self.is_finished() {
            None
        } else {
            assert(self.current < self.text.len());
            let c = self.text[self.current];
            self.current += 1;
            Some(c)
        }
    }

    /// The character that `advance` would read, without moving.
    pub fn peek(&self) -> (c: Option<char>)
        ensures
            c == self@.next_char(),
            self@.wf(),
    {
        if self.is_finished() {
            None
        } else {
            Some(self.text[self.current])
        }
    }

    /// Begins a new lexeme at the read position.
    pub fn reset(&mut self)
        ensures
            final(self)@ == old(self)@.restarted(),
            old(self)@.wf(),
            final(self)@.wf(),
    {
        proof {
            use_type_invariant(&*self);
        }
        self.start = self.current;
    }

    /// The characters read since the last `reset`, as an owned string.
    pub fn extract(&self) -> (lexeme: Option<String>)
        ensures
            lexeme matches Some(s) && s@ == self@.lexeme(),
            self@.wf(),
    {
        proof {
            use_type_invariant(self);
        }
        let mut s = String::new();
        let mut i: usize = self.start;
        while i < self.current
            invariant
                self.start <= i <= self.current <= self.text.len(),
                s@ == self.text@.subrange(self.start as int, i as int),
            decreases self.current - i,
        {
            s.push(self.text[i]);
            i += 1;
            assert(s@ =~= self.text@.subrange(self.start as int, i as int));
        }
        Some(s)
    }
}

} // verus!
