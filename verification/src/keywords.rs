//! The keywords of the language, matched without regard to case.

use vstd::prelude::*;
use crate::chars::{fold_case, to_lower};
use crate::line::Line;

verus! {

/// The words that the compiler knows.
#[derive(Clone, Copy, Debug, PartialEq, Eq, Structural)]
pub enum Keyword {
    Create,
    Drop,
    Insert,
    Into,
    Select,
    Exit,
    Help,
    Print,
}

/// Whether two texts are the same once ASCII capitals are folded to lower
/// case.
pub open spec fn same_ignoring_case(a: Seq<char>, b: Seq<char>) -> bool {
    &&& a.len() == b.len()
    &&& forall|i: int| 0 <= i < a.len() ==> fold_case(#[trigger] a[i]) == fold_case(b[i])
}

impl Keyword {
    /// The keyword as it is written in lower case.
    pub open spec fn spelling(self) -> Seq<char> {
        match self {
            Keyword::Create => seq!['c', 'r', 'e', 'a', 't', 'e'],
            Keyword::Drop => seq!['d', 'r', 'o', 'p'],
            Keyword::Insert => seq!['i', 'n', 's', 'e', 'r', 't'],
            Keyword::Into => seq!['i', 'n', 't', 'o'],
            Keyword::Select => seq!['s', 'e', 'l', 'e', 'c', 't'],
            Keyword::Exit => seq!['e', 'x', 'i', 't'],
            Keyword::Help => seq!['h', 'e', 'l', 'p'],
            Keyword::Print => seq!['p', 'r', 'i', 'n', 't'],
        }
    }

    /// Whether `word` is this keyword in some mixture of cases.
    pub open spec fn matches(self, word: Seq<char>) -> bool {
        same_ignoring_case(word, self.spelling())
    }

    /// The keyword as it is written in lower case.
    pub fn as_str(self) -> (spelling: &'static str)
        ensures
            spelling@ == self.spelling(),
    {
        proof {
            reveal_strlit("create");
            reveal_strlit("drop");
            reveal_strlit("insert");
            reveal_strlit("into");
            reveal_strlit("select");
            reveal_strlit("exit");
            reveal_strlit("help");
            reveal_strlit("print");
        }
        let spelling = match self {
            Keyword::Create => "create",
            Keyword::Drop => "drop",
            Keyword::Insert => "insert",
            Keyword::Into => "into",
            Keyword::Select => "select",
            Keyword::Exit => "exit",
            Keyword::Help => "help",
            Keyword::Print => "print",
        };
        assert(spelling@ =~= self.spelling());
        spelling
    }

    /// Whether `word` is this keyword in some mixture of cases.
    pub fn is_spelled(self, word: &String) -> (found: bool)
        ensures
            found == self.matches(word@),
    {
        same_word(word.as_str(), self.as_str())
    }
}

/// Whether `a` and `b` are the same once ASCII capitals are folded to lower
/// case.
pub fn same_word(a: &str, b: &str) -> (same: bool)
    ensures
        same == same_ignoring_case(a@, b@),
{
    let left = Line::new(a);
    let right = Line::new(b);
    let len = left.len();
    if len != right.len() {
        return false;
    }
    let mut at: usize = 0;
    while at < len
        invariant
            len == left@.len(),
            len == right@.len(),
            left@ == a@,
            right@ == b@,
            at <= len,
            forall|i: int| 0 <= i < at ==> fold_case(#[trigger] a@[i]) == fold_case(b@[i]),
        decreases len - at,
    {
        let x = left.peek(at);
        let y = right.peek(at);
        match (x, y) {
            (Some(x), Some(y)) => {
                if to_lower(x) != to_lower(y) {
                    return false;
                }
            },
            _ => {
                return false;
            },
        }
        at += 1;
    }
    true
}

/// Being the same without regard to case is an equivalence.
pub proof fn lemma_same_ignoring_case_is_equivalence(a: Seq<char>, b: Seq<char>, c: Seq<char>)
    ensures
        same_ignoring_case(a, a),
        same_ignoring_case(a, b) ==> same_ignoring_case(b, a),
        same_ignoring_case(a, b) && same_ignoring_case(b, c) ==> same_ignoring_case(a, c),
{
    if same_ignoring_case(a, b) {
        assert forall|i: int| 0 <= i < b.len() implies fold_case(#[trigger] b[i]) == fold_case(
            a[i],
        ) by {
            assert(fold_case(a[i]) == fold_case(b[i]));
        }
        if same_ignoring_case(b, c) {
            assert forall|i: int| 0 <= i < a.len() implies fold_case(#[trigger] a[i])
                == fold_case(c[i]) by {
                assert(fold_case(b[i]) == fold_case(c[i]));
            }
        }
    }
}

/// Two words that are the same without regard to case match the same
/// keywords.
pub proof fn lemma_keyword_ignores_case(keyword: Keyword, a: Seq<char>, b: Seq<char>)
    requires
        same_ignoring_case(a, b),
    ensures
        keyword.matches(a) == keyword.matches(b),
{
    lemma_same_ignoring_case_is_equivalence(a, b, keyword.spelling());
    lemma_same_ignoring_case_is_equivalence(b, a, keyword.spelling());
    lemma_same_ignoring_case_is_equivalence(a, b, a);
}

/// No word matches two keywords.
pub proof fn lemma_keywords_differ(first: Keyword, second: Keyword, word: Seq<char>)
    requires
        first.matches(word),
        second.matches(word),
    ensures
        first == second,
{
    let a = first.spelling();
    let b = second.spelling();
    assert(a.len() == b.len());
    assert(fold_case(word[0]) == fold_case(a[0]));
    assert(fold_case(word[0]) == fold_case(b[0]));
    assert(fold_case(word[1]) == fold_case(a[1]));
    assert(fold_case(word[1]) == fold_case(b[1]));
    assert(fold_case(word[2]) == fold_case(a[2]));
    assert(fold_case(word[2]) == fold_case(b[2]));
}

} // verus!
