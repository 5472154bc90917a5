//! The tokenizer: split the input into whitespace-separated words and
//! classify each against the fixed keyword vocabulary.

use vstd::prelude::*;

verus! {

/// One keyword of the concrete syntax.
#[derive(Debug, Clone, Copy, PartialEq, Eq, Structural)]
pub enum Token {
    True,
    False,
    Zero,
    Succ,
    Pred,
    IsZero,
    If,
    Then,
    Else,
}

/// The characters that separate words.
pub open spec fn is_ws(c: char) -> bool {
    c == ' ' || c == '\t' || c == '\n' || c == '\r'
}

/// The keyword a word stands for, if any.
pub open spec fn spec_classify(w: Seq<char>) -> Option<Token> {
    if w == seq!['t', 'r', 'u', 'e'] {
        Some(Token::True)
    } else if w == seq!['f', 'a', 'l', 's', 'e'] {
        Some(Token::False)
    } else if w == seq!['0'] {
        Some(Token::Zero)
    } else if w == seq!['s', 'u', 'c', 'c'] {
        Some(Token::Succ)
    } else if w == seq!['p', 'r', 'e', 'd'] {
        Some(Token::Pred)
    } else if w == seq!['i', 's', 'z', 'e', 'r', 'o'] {
        Some(Token::IsZero)
    } else if w == seq!['i', 'f'] {
        Some(Token::If)
    } else if w == seq!['t', 'h', 'e', 'n'] {
        Some(Token::Then)
    } else if w == seq!['e', 'l', 's', 'e'] {
        Some(Token::Else)
    } else {
        None
    }
}

/// The position right after the word that starts at `i`: the first
/// position at or past `i` holding whitespace, or the end.
pub open spec fn spec_word_end(s: Seq<char>, i: int) -> int
    decreases s.len() - i,
{
    if i < 0 || i >= s.len() {
        i
    } else if is_ws(s[i]) {
        i
    } else {
        spec_word_end(s, i + 1)
    }
}

/// The end of a word never lies before its start nor past the input.
pub proof fn lemma_word_end_bounds(s: Seq<char>, i: int)
    requires
        0 <= i <= s.len(),
    ensures
        i <= spec_word_end(s, i) <= s.len(),
    decreases s.len() - i,
{
    if i < s.len() && !is_ws(s[i]) {
        lemma_word_end_bounds(s, i + 1);
    }
}

/// The token sequence of the input from position `i` on, or the
/// position of the first word that is no keyword.
pub open spec fn spec_lex_from(s: Seq<char>, i: int) -> Result<Seq<Token>, int>
    decreases s.len() - i,
{
    if i < 0 || i >= s.len() {
        Ok(Seq::empty())
    } else if is_ws(s[i]) {
        spec_lex_from(s, i + 1)
    } else {
        proof {
            lemma_word_end_bounds(s, i + 1);
        }
        let j = spec_word_end(s, i);
        match spec_classify(s.subrange(i, j)) {
            Some(t) => match spec_lex_from(s, j) {
                Ok(rest) => Ok(seq![t] + rest),
                Err(p) => Err(p),
            },
            None => Err(i),
        }
    }
}

/// A token sequence is never longer than the input it came from:
/// every token consumes at least one character.
pub proof fn lemma_lex_len(s: Seq<char>, i: int)
    requires
        0 <= i <= s.len(),
    ensures
        spec_lex_from(s, i) matches Ok(toks) ==> toks.len() <= s.len() - i,
    decreases s.len() - i,
{
    if i < s.len() {
        if is_ws(s[i]) {
            lemma_lex_len(s, i + 1);
        } else {
            lemma_word_end_bounds(s, i + 1);
            let j = spec_word_end(s, i);
            lemma_lex_len(s, j);
        }
    }
}

/// Decide whether a character separates words.
pub fn is_ws_char(c: char) -> (r: bool)
    ensures
        r == is_ws(c),
{
    c == ' ' || c == '\t' || c == '\n' || c == '\r'
}

/// Classify one word against the keyword vocabulary.
fn classify(w: &Vec<char>) -> (r: Option<Token>)
    ensures
        r == spec_classify(w@),
{
    let n = w.len();
    if n == 1 && w[0] == '0' {
        proof {
            assert(w@ =~= seq!['0']);
        }
        Some(Token::Zero)
    } else if n == 2 && w[0] == 'i' && w[1] == 'f' {
        proof {
            assert(w@ =~= seq!['i', 'f']);
        }
        Some(Token::If)
    } else if n == 4 && w[0] == 't' && w[1] == 'r' && w[2] == 'u' && w[3] == 'e' {
        proof {
            assert(w@ =~= seq!['t', 'r', 'u', 'e']);
        }
        Some(Token::True)
    } else if n == 4 && w[0] == 's' && w[1] == 'u' && w[2] == 'c' && w[3] == 'c' {
        proof {
            assert(w@ =~= seq!['s', 'u', 'c', 'c']);
        }
        Some(Token::Succ)
    } else if n == 4 && w[0] == 'p' && w[1] == 'r' && w[2] == 'e' && w[3] == 'd' {
        proof {
            assert(w@ =~= seq!['p', 'r', 'e', 'd']);
        }
        Some(Token::Pred)
    } else if n == 4 && w[0] == 't' && w[1] == 'h' && w[2] == 'e' && w[3] == 'n' {
        proof {
            assert(w@ =~= seq!['t', 'h', 'e', 'n']);
        }
        Some(Token::Then)
    } else if n == 4 && w[0] == 'e' && w[1] == 'l' && w[2] == 's' && w[3] == 'e' {
        proof {
            assert(w@ =~= seq!['e', 'l', 's', 'e']);
        }
        Some(Token::Else)
    } else if n == 5 && w[0] == 'f' && w[1] == 'a' && w[2] == 'l' && w[3] == 's' && w[4] == 'e' {
        proof {
            assert(w@ =~= seq!['f', 'a', 'l', 's', 'e']);
        }
        Some(Token::False)
    } else if n == 6 && w[0] == 'i' && w[1] == 's' && w[2] == 'z' && w[3] == 'e' && w[4] == 'r'
        && w[5] == 'o' {
        proof {
            assert(w@ =~= seq!['i', 's', 'z', 'e', 'r', 'o']);
        }
        Some(Token::IsZero)
    } else {
        None
    }
}

/// Tokenize the input from position `i` on.
pub fn lex_from(s: &Vec<char>, i: usize) -> (r: Result<Vec<Token>, usize>)
    requires
        i <= s@.len(),
    ensures
        r matches Ok(toks) ==> spec_lex_from(s@, i as int) == Ok::<Seq<Token>, int>(toks@),
        r matches Err(p) ==> spec_lex_from(s@, i as int) == Err::<Seq<Token>, int>(p as int),
    decreases s@.len() - i,
{
    if i >= s.len() {
        let toks: Vec<Token> = Vec::new();
        assert(toks@ =~= Seq::<Token>::empty());
        return Ok(toks);
    }
    if is_ws_char(s[i]) {
        return lex_from(s, i + 1);
    }
    let mut j = i;
    while j < s.len() && !is_ws_char(s[j])
        invariant
            i <= j <= s@.len(),
            spec_word_end(s@, j as int) == spec_word_end(s@, i as int),
        decreases s@.len() - j,
    {
        j = j + 1;
    }
    assert(spec_word_end(s@, i as int) == j);
    let mut w: Vec<char> = Vec::new();
    let mut k = i;
    while k < j
        invariant
            i <= k <= j <= s@.len(),
            w@ == s@.subrange(i as int, k as int),
        decreases j - k,
    {
        w.push(s[k]);
        proof {
            assert(w@ =~= s@.subrange(i as int, k + 1));
        }
        k = k + 1;
    }
    match classify(&w) {
        Some(t) => {
            assert(j > i);
            match lex_from(s, j) {
                Ok(mut rest) => {
                    let ghost rest0 = rest@;
                    rest.insert(0, t);
                    proof {
                        assert(rest@ =~= seq![t] + rest0);
                    }
                    Ok(rest)
                },
                Err(p) => Err(p),
            }
        },
        None => Err(i),
    }
}

} // verus!
