//! The closed set of named operations and their mnemonics.

use vstd::prelude::*;
use vstd::string::StringExecFns;

verus! {

/// A named operation of the machine.
#[derive(Debug, Clone, Copy, Hash, PartialEq, Eq, Structural)]
pub enum Opp {
    /// Pops two values and pushes their sum.
    Add,
    /// Pops two values and pushes the second minus the first.
    Sub,
    /// Pops two values and pushes their product.
    Mul,
    /// Pops a divisor and a dividend; pushes the remainder, then the quotient.
    Div,
    /// Reports every slot of the stack, bottom first.
    Dump,
    /// Reports the topmost value of the stack.
    Top,
    /// Exchanges the two topmost values of the stack.
    Swap,
    /// Discards the topmost value of the stack.
    Drop,
    /// Pops a distance and moves the pointer by it.
    Hop,
    /// Pushes the pointer.
    Pos,
    /// Pops a value and ends the run with it.
    Exit,
    /// Pops a token index and continues there.
    Goto,
    /// Exchanges the topmost value of the stack with the bottom one.
    Flip,
}

impl Opp {
    /// The word that names the operation in program text.
    pub open spec fn mnemonic_spec(self) -> Seq<char> {
        match self {
            Opp::Add => seq!['a', 'd', 'd'],
            Opp::Sub => seq!['s', 'u', 'b'],
            Opp::Mul => seq!['m', 'u', 'l'],
            Opp::Div => seq!['d', 'i', 'v'],
            Opp::Dump => seq!['d', 'u', 'm', 'p'],
            Opp::Top => seq!['t', 'o', 'p'],
            Opp::Swap => seq!['s', 'w', 'a', 'p'],
            Opp::Drop => seq!['d', 'r', 'o', 'p'],
            Opp::Hop => seq!['h', 'o', 'p'],
            Opp::Pos => seq!['p', 'o', 's'],
            Opp::Exit => seq!['e', 'x', 'i', 't'],
            Opp::Goto => seq!['g', 'o', 't', 'o'],
            Opp::Flip => seq!['f', 'l', 'i', 'p'],
        }
    }

    /// The operation that a word names, if it names one. Matching is exact:
    /// lower case only, nothing before or after the mnemonic.
    pub open spec fn named(word: Seq<char>) -> Option<Opp> {
        if word == Opp::Add.mnemonic_spec() {
            Some(Opp::Add)
        } else if word == Opp::Sub.mnemonic_spec() {
            Some(Opp::Sub)
        } else if word == Opp::Mul.mnemonic_spec() {
            Some(Opp::Mul)
        } else if word == Opp::Div.mnemonic_spec() {
            Some(Opp::Div)
        } else if word == Opp::Dump.mnemonic_spec() {
            Some(Opp::Dump)
        } else if word == Opp::Top.mnemonic_spec() {
            Some(Opp::Top)
        } else if word == Opp::Swap.mnemonic_spec() {
            Some(Opp::Swap)
        } else if word == Opp::Drop.mnemonic_spec() {
            Some(Opp::Drop)
        } else if word == Opp::Hop.mnemonic_spec() {
            Some(Opp::Hop)
        } else if word == Opp::Pos.mnemonic_spec() {
            Some(Opp::Pos)
        } else if word == Opp::Exit.mnemonic_spec() {
            Some(Opp::Exit)
        } else if word == Opp::Goto.mnemonic_spec() {
            Some(Opp::Goto)
        } else if word == Opp::Flip.mnemonic_spec() {
            Some(Opp::Flip)
        } else {
            None
        }
    }

    /// Every mnemonic is a short, non-empty word of lower-case letters, and
    /// no two operations share one.
    pub proof fn lemma_mnemonic_shape(self)
        ensures
            3 <= self.mnemonic_spec().len() <= 4,
            forall|i: int|
                0 <= i < self.mnemonic_spec().len() ==> 'a' <= #[trigger] self.mnemonic_spec()[i]
                    <= 'z',
            forall|other: Opp| other.mnemonic_spec() == self.mnemonic_spec() ==> other == self,
    {
        let word = self.mnemonic_spec();
        assert forall|other: Opp| other.mnemonic_spec() == word implies other == self by {
            let theirs = other.mnemonic_spec();
            assert(theirs.len() == word.len());
            assert(theirs[0] == word[0] && theirs[1] == word[1] && theirs[2] == word[2]);
        }
    }

    /// Reading a mnemonic back gives the operation it was written for.
    pub proof fn lemma_named_mnemonic(self)
        ensures
            Opp::named(self.mnemonic_spec()) == Some(self),
    {
        self.lemma_mnemonic_shape();
    }

    /// A word names an operation only by being that operation's mnemonic.
    pub proof fn lemma_named_is_mnemonic(word: Seq<char>)
        ensures
            match Opp::named(word) {
                Some(op) => op.mnemonic_spec() == word,
                None => forall|op: Opp| op.mnemonic_spec() != word,
            },
    {
    }

    /// The mnemonic as static text.
    pub fn mnemonic(&self) -> (text: &'static str)
        ensures
            text@ == self.mnemonic_spec(),
    {
        proof {
            reveal_strlit("add");
            reveal_strlit("sub");
            reveal_strlit("mul");
            reveal_strlit("div");
            reveal_strlit("dump");
            reveal_strlit("top");
            reveal_strlit("swap");
            reveal_strlit("drop");
            reveal_strlit("hop");
            reveal_strlit("pos");
            reveal_strlit("exit");
            reveal_strlit("goto");
            reveal_strlit("flip");
        }
        let text = match self {
            Opp::Add => "add",
            Opp::Sub => "sub",
            Opp::Mul => "mul",
            Opp::Div => "div",
            Opp::Dump => "dump",
            Opp::Top => "top",
            Opp::Swap => "swap",
            Opp::Drop => "drop",
            Opp::Hop => "hop",
            Opp::Pos => "pos",
            Opp::Exit => "exit",
            Opp::Goto => "goto",
            Opp::Flip => "flip",
        };
        assert(text@ =~= self.mnemonic_spec());
        text
    }

    /// Renders the operation as its mnemonic.
    pub fn to_string(&self) -> (text: String)
        ensures
            text@ == self.mnemonic_spec(),
    {
        String::from_str(self.mnemonic())
    }

    /// Reads an operation from a word held as characters.
    pub fn from_chars(word: &[char]) -> (found: Option<Opp>)
        ensures
            found == Opp::named(word@),
    {
        if spells(word, Opp::Add.mnemonic()) {
            Some(Opp::Add)
        } else if spells(word, Opp::Sub.mnemonic()) {
            Some(Opp::Sub)
        } else if spells(word, Opp::Mul.mnemonic()) {
            Some(Opp::Mul)
        } else if spells(word, Opp::Div.mnemonic()) {
            Some(Opp::Div)
        } else if spells(word, Opp::Dump.mnemonic()) {
            Some(Opp::Dump)
        } else if spells(word, Opp::Top.mnemonic()) {
            Some(Opp::Top)
        } else if spells(word, Opp::Swap.mnemonic()) {
            Some(Opp::Swap)
        } else if spells(word, Opp::Drop.mnemonic()) {
            Some(Opp::Drop)
        } else if spells(word, Opp::Hop.mnemonic()) {
            Some(Opp::Hop)
        } else if spells(word, Opp::Pos.mnemonic()) {
            Some(Opp::Pos)
        } else if spells(word, Opp::Exit.mnemonic()) {
            Some(Opp::Exit)
        } else if spells(word, Opp::Goto.mnemonic()) {
            Some(Opp::Goto)
        } else if spells(word, Opp::Flip.mnemonic()) {
            Some(Opp::Flip)
        } else {
            None
        }
    }

    /// Reads an operation from its mnemonic; any other word is refused.
    pub fn from_str(s: &str) -> (found: Result<Opp, ()>)
        ensures
            found == match Opp::named(s@) {
                Some(op) => Ok::<Opp, ()>(op),
                None => Err(()),
            },
    {
        let word = chars_of(s);
        match Opp::from_chars(word.as_slice()) {
            Some(op) => Ok(op),
            None => Err(()),
        }
    }
}

/// The characters of a text, in order.
pub fn chars_of(text: &str) -> (chars: Vec<char>)
    ensures
        chars@ == text@,
{
    let mut chars: Vec<char> = Vec::new();
    for c in it: text.chars()
        invariant
            it.seq() == text@,
            chars@ == text@.take(it.index()),
    {
        chars.push(c);
        assert(text@.take(it.index() + 1) == text@.take(it.index()).push(c));
    }
    chars
}

/// Whether a word is, character for character, the given text.
pub fn spells(word: &[char], text: &str) -> (same: bool)
    ensures
        same == (word@ == text@),
{
    let mut at: usize = 0;
    for c in it: text.chars()
        invariant
            it.seq() == text@,
            at == it.index(),
            at <= word@.len(),
            word@.take(at as int) == text@.take(at as int),
    {
        if at >= word.len() || word[at] != c {
            assert(word@ != text@) by {
                if word@ == text@ {
                    assert(word@[at as int] == text@[at as int]);
                }
            }
            return false;
        }
        assert(text@.take(at + 1) == text@.take(at as int).push(c));
        assert(word@.take(at + 1) == word@.take(at as int).push(word@[at as int]));
        at = at + 1;
    }
    assert(text@.take(at as int) == text@);
    if at == word.len() {
        assert(word@.take(at as int) == word@);
        true
    } else {
        false
    }
}

} // verus!
