//! Lexical tokens as handed over by the host's tokenizer, with groups
//! written out as an opening and a closing token.
use vstd::prelude::*;

verus! {

/// The three kinds of bracket that open and close a group.
#[derive(Clone, Copy, Debug, PartialEq, Eq, Structural)]
pub enum Delim {
    Paren,
    Bracket,
    Brace,
}

/// One token of the input or the output.
#[derive(Debug, PartialEq, Eq)]
pub enum Token {
    Ident(String),
    /// A punctuation character; `joint` is set when it is glued to the next one (`-` in `->`).
    Punct { ch: char, joint: bool },
    Literal(String),
    Open(Delim),
    Close(Delim),
}

impl Token {
    /// A copy of the token, equal to it.
    pub fn copy(&self) -> (r: Token)
        ensures
            r == *self,
    {
        match self {
            Token::Ident(s) => Token::Ident(s.clone()),
            Token::Punct { ch, joint } => Token::Punct { ch: *ch, joint: *joint },
            Token::Literal(s) => Token::Literal(s.clone()),
            Token::Open(d) => Token::Open(*d),
            Token::Close(d) => Token::Close(*d),
        }
    }
}

/// Appends a copy of `src[lo..hi]` to `out`.
pub fn push_range(out: &mut Vec<Token>, src: &Vec<Token>, lo: usize, hi: usize)
    requires
        lo <= hi <= src.len(),
    ensures
        final(out)@ == old(out)@ + src@.subrange(lo as int, hi as int),
{
    let mut i = lo;
    while i < hi
        invariant
            lo <= i <= hi <= src.len(),
            out@ == old(out)@ + src@.subrange(lo as int, i as int),
        decreases hi - i,
    {
        out.push(src[i].copy());
        i += 1;
        assert(src@.subrange(lo as int, i as int) =~= src@.subrange(lo as int, i - 1) .push(src@[i - 1]));
    }
}

/// A copy of a whole token sequence.
pub fn copy_tokens(src: &Vec<Token>) -> (r: Vec<Token>)
    ensures
        r@ == src@,
{
    let mut r: Vec<Token> = Vec::new();
    push_range(&mut r, src, 0, src.len());
    assert(r@ =~= src@);
    r
}

} // verus!
