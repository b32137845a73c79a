//! How program text falls into words: runs of characters between ASCII
//! whitespace.

use vstd::prelude::*;

verus! {

/// Whether a character separates words: space, tab, line feed, form feed or
/// carriage return.
pub open spec fn is_space(c: char) -> bool {
    c == ' ' || c == '\t' || c == '\n' || c == '\x0C' || c == '\r'
}

/// Whether a run of characters can stand as one word: it is not empty and
/// holds no whitespace.
pub open spec fn is_word(w: Seq<char>) -> bool {
    w.len() > 0 && forall|i: int| 0 <= i < w.len() ==> !is_space(#[trigger] w[i])
}

/// Whether a run of characters can separate two words: it is not empty and
/// holds whitespace only.
pub open spec fn is_spacing(s: Seq<char>) -> bool {
    s.len() > 0 && forall|i: int| 0 <= i < s.len() ==> is_space(#[trigger] s[i])
}

/// What a left-to-right pass over some text has seen: the words that
/// whitespace has already closed, and the characters of a word still open.
pub struct Scan {
    pub closed: Seq<Seq<char>>,
    pub open: Seq<char>,
}

impl Scan {
    /// The words seen, the open one included if it has any character.
    pub open spec fn words(self) -> Seq<Seq<char>> {
        if self.open.len() > 0 {
            self.closed.push(self.open)
        } else {
            self.closed
        }
    }
}

/// The pass over a whole text.
pub open spec fn scan(text: Seq<char>) -> Scan
    decreases text.len(),
{
    if text.len() == 0 {
        Scan { closed: Seq::empty(), open: Seq::empty() }
    } else {
        let before = scan(text.drop_last());
        if is_space(text.last()) {
            Scan { closed: before.words(), open: Seq::empty() }
        } else {
            Scan { closed: before.closed, open: before.open.push(text.last()) }
        }
    }
}

/// The words of a text, in order.
pub open spec fn words(text: Seq<char>) -> Seq<Seq<char>> {
    scan(text).words()
}

/// Words written one after the other, each followed by the separator.
pub open spec fn joined(ws: Seq<Seq<char>>, separator: Seq<char>) -> Seq<char>
    decreases ws.len(),
{
    if ws.len() == 0 {
        Seq::empty()
    } else {
        joined(ws.drop_last(), separator) + ws.last() + separator
    }
}

/// Every word that a pass finds is a word, and the open one holds no
/// whitespace.
pub proof fn lemma_scan_finds_words(text: Seq<char>)
    ensures
        forall|i: int| 0 <= i < scan(text).closed.len() ==> is_word(#[trigger] scan(text).closed[i]),
        forall|i: int| 0 <= i < scan(text).open.len() ==> !is_space(#[trigger] scan(text).open[i]),
        forall|i: int| 0 <= i < words(text).len() ==> is_word(#[trigger] words(text)[i]),
    decreases text.len(),
{
    if text.len() > 0 {
        let before = scan(text.drop_last());
        let after = scan(text);
        lemma_scan_finds_words(text.drop_last());
        if is_space(text.last()) {
            assert forall|i: int| 0 <= i < after.closed.len() implies is_word(
                #[trigger] after.closed[i],
            ) by {
                if i < before.closed.len() {
                    assert(after.closed[i] == before.closed[i]);
                } else {
                    assert(after.closed[i] == before.open);
                }
            }
        } else {
            assert forall|i: int| 0 <= i < after.open.len() implies !is_space(
                #[trigger] after.open[i],
            ) by {
                if i < before.open.len() {
                    assert(after.open[i] == before.open[i]);
                }
            }
        }
        assert forall|i: int| 0 <= i < after.words().len() implies is_word(
            #[trigger] after.words()[i],
        ) by {
            if i < after.closed.len() {
                assert(after.words()[i] == after.closed[i]);
            }
        }
    }
}

/// What whitespace has closed stays: the closed words of a prefix open the
/// list of words of the whole text.
pub proof fn lemma_closed_words_stay(text: Seq<char>, k: int)
    requires
        0 <= k <= text.len(),
    ensures
        scan(text.take(k)).closed.len() <= scan(text).closed.len(),
        forall|i: int|
            0 <= i < scan(text.take(k)).closed.len() ==> #[trigger] scan(text.take(k)).closed[i]
                == scan(text).closed[i],
    decreases text.len(),
{
    if k == text.len() {
        assert(text.take(k) == text);
    } else {
        lemma_closed_words_stay(text.drop_last(), k);
        assert(text.drop_last().take(k) == text.take(k));
    }
}

/// Characters that are not whitespace lengthen the open word.
pub proof fn lemma_scan_more_word(text: Seq<char>, more: Seq<char>)
    requires
        forall|i: int| 0 <= i < more.len() ==> !is_space(#[trigger] more[i]),
    ensures
        scan(text + more).closed == scan(text).closed,
        scan(text + more).open == scan(text).open + more,
    decreases more.len(),
{
    if more.len() == 0 {
        assert(text + more == text);
        assert(scan(text).open + more == scan(text).open);
    } else {
        lemma_scan_more_word(text, more.drop_last());
        assert((text + more).drop_last() == text + more.drop_last());
        assert(!is_space(more[more.len() - 1]));
        assert((scan(text).open + more.drop_last()).push(more.last()) == scan(text).open + more);
    }
}

/// Whitespace closes the open word and opens none.
pub proof fn lemma_scan_spacing(text: Seq<char>, spacing: Seq<char>)
    requires
        is_spacing(spacing),
    ensures
        scan(text + spacing).closed == words(text),
        scan(text + spacing).open == Seq::<char>::empty(),
    decreases spacing.len(),
{
    assert((text + spacing).drop_last() == text + spacing.drop_last());
    assert(is_space(spacing[spacing.len() - 1]));
    if spacing.len() == 1 {
        assert(text + spacing.drop_last() == text);
    } else {
        let head = spacing.drop_last();
        assert forall|i: int| 0 <= i < head.len() implies is_space(#[trigger] head[i]) by {
            assert(head[i] == spacing[i]);
        }
        lemma_scan_spacing(text, head);
    }
}

/// Splitting undoes joining: the words of a joined text are the words that
/// were joined, whatever whitespace separates them.
pub proof fn lemma_words_of_joined(ws: Seq<Seq<char>>, separator: Seq<char>)
    requires
        forall|i: int| 0 <= i < ws.len() ==> is_word(#[trigger] ws[i]),
        is_spacing(separator),
    ensures
        scan(joined(ws, separator)).closed == ws,
        scan(joined(ws, separator)).open == Seq::<char>::empty(),
        words(joined(ws, separator)) == ws,
    decreases ws.len(),
{
    if ws.len() == 0 {
        assert(ws == Seq::<Seq<char>>::empty());
    } else {
        let head = ws.drop_last();
        assert forall|i: int| 0 <= i < head.len() implies is_word(#[trigger] head[i]) by {
            assert(head[i] == ws[i]);
        }
        lemma_words_of_joined(head, separator);
        let before = joined(head, separator);
        assert(is_word(ws[ws.len() - 1]));
        lemma_scan_more_word(before, ws.last());
        lemma_scan_spacing(before + ws.last(), separator);
        assert(Seq::<char>::empty() + ws.last() == ws.last());
        assert(head.push(ws.last()) == ws);
    }
}

} // verus!
