//! The text of a module as lines, and lines as words.
use vstd::prelude::*;
#[allow(unused_imports)]
use crate::assembly::{say, say_num, Page};
#[allow(unused_imports)]
use crate::text::{dec_text, int_text};

verus! {

/// A line, as its words.
pub type Line = Seq<Seq<char>>;

/// How far a text has been read: the lines that are complete, and of the last one the words
/// that are, and what there is of the next word. Between quotes every character is part of
/// the word.
#[verifier::ext_equal]
pub ghost struct Read {
    pub lines: Seq<Line>,
    pub words: Line,
    pub cur: Seq<char>,
    pub quoted: bool,
}

/// What parts words from one another.
pub open spec fn parts_words(c: char) -> bool {
    c == ' ' || c == ',' || c == '(' || c == ')' || c == '[' || c == ']'
}

/// The words with the one that is complete now.
pub open spec fn ended(words: Line, cur: Seq<char>) -> Line {
    if cur.len() == 0 {
        words
    } else {
        words.push(cur)
    }
}

pub open spec fn read_char(r: Read, c: char) -> Read {
    if c == '"' {
        Read { cur: r.cur.push(c), quoted: !r.quoted, ..r }
    } else if r.quoted {
        Read { cur: r.cur.push(c), ..r }
    } else if c == '\n' {
        Read {
            lines: r.lines.push(ended(r.words, r.cur)),
            words: Seq::empty(),
            cur: Seq::empty(),
            quoted: false,
        }
    } else if parts_words(c) {
        Read { words: ended(r.words, r.cur), cur: Seq::empty(), ..r }
    } else {
        Read { cur: r.cur.push(c), ..r }
    }
}

/// What comes of reading on.
pub open spec fn reading(r: Read, s: Seq<char>) -> Read
    decreases s.len(),
{
    if s.len() == 0 {
        r
    } else {
        read_char(reading(r, s.drop_last()), s.last())
    }
}

/// Nothing is read yet.
pub open spec fn unread() -> Read {
    Read { lines: Seq::empty(), words: Seq::empty(), cur: Seq::empty(), quoted: false }
}

/// The lines of a text.
pub open spec fn lines_of(s: Seq<char>) -> Seq<Line> {
    reading(unread(), s).lines
}

/// How far the text of a page reads.
#[verifier::opaque]
pub open spec fn page_read(p: Page) -> Read {
    reading(unread(), p.text)
}

/// A line of which these words are complete, and this is the start of the next.
pub open spec fn in_word(lines: Seq<Line>, words: Line, cur: Seq<char>) -> Read {
    Read { lines, words, cur, quoted: false }
}

/// Characters that stay together.
pub open spec fn is_solid(w: Seq<char>) -> bool {
    forall|i: int|
        0 <= i < w.len() ==> !parts_words(#[trigger] w[i]) && w[i] != '\n' && w[i] != '"'
}

pub proof fn lemma_append(r: Read, a: Seq<char>, b: Seq<char>)
    ensures
        reading(r, a + b) == reading(reading(r, a), b),
    decreases b.len(),
{
    if b.len() == 0 {
        assert(a + b =~= a);
    } else {
        lemma_append(r, a, b.drop_last());
        assert((a + b).drop_last() =~= a + b.drop_last());
        assert((a + b).last() == b.last());
    }
}

pub proof fn lemma_solid(r: Read, w: Seq<char>)
    requires
        is_solid(w),
        !r.quoted,
    ensures
        reading(r, w) == (Read { cur: r.cur + w, ..r }),
    decreases w.len(),
{
    if w.len() == 0 {
        assert(r.cur + w =~= r.cur);
    } else {
        let front = w.drop_last();
        assert forall|i: int| 0 <= i < front.len() implies !parts_words(#[trigger] front[i])
            && front[i] != '\n' && front[i] != '"' by {
            assert(front[i] == w[i]);
        }
        lemma_solid(r, front);
        assert(!parts_words(w[w.len() - 1]));
        assert((r.cur + front).push(w.last()) =~= r.cur + w);
    }
}

pub proof fn lemma_one(r: Read, c: char)
    ensures
        reading(r, seq![c]) == read_char(r, c),
{
    reveal_with_fuel(reading, 2);
    assert(seq![c].drop_last() =~= Seq::<char>::empty());
}

pub proof fn lemma_say(p: Page, s: Seq<char>)
    ensures
        page_read(say(p, s)) == reading(page_read(p), s),
{
    reveal(page_read);
    lemma_append(unread(), p.text, s);
}

pub proof fn lemma_say_num(p: Page, n: nat)
    ensures
        page_read(say_num(p, n)) == reading(page_read(p), dec_text(n)),
{
    reveal(page_read);
    lemma_append(unread(), p.text, dec_text(n));
}

pub proof fn lemma_dec_solid(n: nat)
    ensures
        is_solid(dec_text(n)),
        dec_text(n).len() > 0,
        forall|i: int| 0 <= i < dec_text(n).len() ==> '0' <= #[trigger] dec_text(n)[i] <= '9',
    decreases n,
{
    if n >= 10 {
        lemma_dec_solid(n / 10);
        let front = dec_text(n / 10);
        assert forall|i: int| 0 <= i < dec_text(n).len() implies '0' <= #[trigger] dec_text(n)[i]
            <= '9' by {
            if i < front.len() {
                assert(dec_text(n)[i] == front[i]);
            }
        }
    }
}

pub proof fn lemma_int_solid(n: int)
    ensures
        is_solid(int_text(n)),
        int_text(n).len() > 0,
{
    reveal_strlit("-");
    if n < 0 {
        lemma_dec_solid((-n) as nat);
        let d = dec_text((-n) as nat);
        assert forall|i: int| 0 <= i < int_text(n).len() implies !parts_words(
            #[trigger] int_text(n)[i],
        ) && int_text(n)[i] != '\n' && int_text(n)[i] != '"' by {
            if i > 0 {
                assert(int_text(n)[i] == d[i - 1]);
            }
        }
    } else {
        lemma_dec_solid(n as nat);
    }
}

} // verus!
