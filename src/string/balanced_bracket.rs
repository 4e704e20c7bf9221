//! Determine if a string's brackets are balanced

use vstd::prelude::*;

verus! {

/// `(`
pub const OPEN_PAREN: u8 = 0x28;

/// `)`
pub const CLOSE_PAREN: u8 = 0x29;

/// `[`
pub const OPEN_SQUARE: u8 = 0x5b;

/// `]`
pub const CLOSE_SQUARE: u8 = 0x5d;

/// `{`
pub const OPEN_CURLY: u8 = 0x7b;

/// `}`
pub const CLOSE_CURLY: u8 = 0x7d;

/// `c` is one of the ASCII brackets `()[]{}`.
pub open spec fn is_bracket(c: u8) -> bool {
    c == OPEN_PAREN || c == CLOSE_PAREN || c == OPEN_SQUARE || c == CLOSE_SQUARE || c == OPEN_CURLY
        || c == CLOSE_CURLY
}

/// `c` is an opening bracket `(`, `[` or `{`.
pub open spec fn is_opening(c: u8) -> bool {
    c == OPEN_PAREN || c == OPEN_SQUARE || c == OPEN_CURLY
}

/// The closing bracket that matches the opening bracket `c`.
pub open spec fn closing_of(c: u8) -> u8 {
    if c == OPEN_PAREN {
        CLOSE_PAREN
    } else if c == OPEN_SQUARE {
        CLOSE_SQUARE
    } else {
        CLOSE_CURLY
    }
}

/// The closing brackets still owed after reading `s`, innermost last; `None`
/// once some byte other than an opening bracket is not the one owed next.
pub open spec fn owed_closers(s: Seq<u8>) -> Option<Seq<u8>>
    decreases s.len(),
{
    if s.len() == 0 {
        Some(Seq::empty())
    } else {
        match owed_closers(s.drop_last()) {
            None => None,
            Some(owed) => {
                let c = s.last();
                if is_opening(c) {
                    Some(owed.push(closing_of(c)))
                } else if owed.len() > 0 && owed.last() == c {
                    Some(owed.drop_last())
                } else {
                    None
                }
            },
        }
    }
}

/// Every opening bracket of `s` is closed, in order, by its matching bracket,
/// and every closing bracket closes one.
pub open spec fn balanced(s: Seq<u8>) -> bool {
    owed_closers(s) == Some(Seq::<u8>::empty())
}

/// The count of owed closers has the parity of the length read.
proof fn lemma_owed_parity(s: Seq<u8>)
    ensures
        owed_closers(s) matches Some(owed) ==> owed.len() % 2 == s.len() % 2,
    decreases s.len(),
{
    if s.len() > 0 {
        lemma_owed_parity(s.drop_last());
    }
}

/// A byte buffer that only contains ASCII brackets.
pub struct Brackets(Vec<u8>);

impl View for Brackets {
    type V = Seq<u8>;

    closed spec fn view(&self) -> Seq<u8> {
        self.0@
    }
}

impl Brackets {
    /// Converts a byte buffer to `Brackets`, or hands it back if a byte is
    /// not an ASCII bracket.
    pub fn from_bytes(bytes: Vec<u8>) -> (r: Result<Brackets, Vec<u8>>)
        ensures
            match r {
                Ok(b) => b@ == bytes@ && forall|i: int| 0 <= i < bytes@.len() ==> is_bracket(#[trigger] bytes@[i]),
                Err(v) => v@ == bytes@ && exists|i: int| 0 <= i < bytes@.len() && !is_bracket(#[trigger] bytes@[i]),
            },
    {
        let n = bytes.len();
        let mut i: usize = 0;
        while i < n
            invariant
                n == bytes@.len(),
                i <= n,
                forall|k: int| 0 <= k < i ==> is_bracket(#[trigger] bytes@[k]),
            decreases n - i,
        {
            let c = bytes[i];
            if !(c == OPEN_PAREN || c == CLOSE_PAREN || c == OPEN_CURLY || c == CLOSE_CURLY || c == OPEN_SQUARE || c == CLOSE_SQUARE) {
                return Err(bytes);
            }
            i += 1;
        }
        Ok(Brackets(bytes))
    }
}

/// Checks if a string of brackets is balanced.
///
/// An odd length cannot be balanced, so it is rejected at once. Otherwise a
/// stack holds the closing bracket owed for each opening bracket read; a
/// closing bracket must be the one on top.
pub fn is_balanced(brackets: Brackets) -> (r: bool)
    ensures
        r == balanced(brackets@),
{
    let input = brackets.0;
    let n = input.len();
    proof {
        lemma_owed_parity(input@);
    }
    if n % 2 != 0 {
        return false;
    }
    let mut stack: Vec<u8> = Vec::new();
    let mut i: usize = 0;
    while i < n
        invariant
            n == input@.len(),
            input@ == brackets@,
            i <= n,
            owed_closers(input@.subrange(0, i as int)) == Some(stack@),
        decreases n - i,
    {
        let ghost prefix = input@.subrange(0, i + 1);
        proof {
            assert(prefix.drop_last() =~= input@.subrange(0, i as int));
        }
        let c = input[i];
        if c == OPEN_PAREN {
            stack.push(CLOSE_PAREN);
        } else if c == OPEN_CURLY {
            stack.push(CLOSE_CURLY);
        } else if c == OPEN_SQUARE {
            stack.push(CLOSE_SQUARE);
        } else {
            if stack.len() == 0 {
                proof {
                    lemma_none_stays_none(input@, i as int + 1);
                }
                return false;
            }
            let top = stack.pop().unwrap();
            if c != top {
                proof {
                    lemma_none_stays_none(input@, i as int + 1);
                }
                return false;
            }
        }
        i += 1;
    }
    proof {
        assert(input@.subrange(0, n as int) =~= input@);
        if stack@.len() == 0 {
            assert(stack@ =~= Seq::<u8>::empty());
        }
    }
    stack.len() == 0
}

/// Once a mismatch is found, reading further bytes cannot undo it.
proof fn lemma_none_stays_none(s: Seq<u8>, k: int)
    requires
        0 <= k <= s.len(),
        owed_closers(s.subrange(0, k)) is None,
    ensures
        owed_closers(s) is None,
    decreases s.len() - k,
{
    if k < s.len() {
        assert(s.subrange(0, k + 1).drop_last() =~= s.subrange(0, k));
        lemma_none_stays_none(s, k + 1);
    } else {
        assert(s.subrange(0, k) =~= s);
    }
}

} // verus!
