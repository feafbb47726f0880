//! The block parser: from a token sequence to a checked tree.
//!
//! The grammar, over tokens in which a group is an opening token, its
//! contents and the matching closing token:
//!
//! ```text
//! blocks    := block*
//! block     := attribute* ('describe' | 'context') ident signature? '{' blocks '}'
//!            | attribute* ('it' | 'test') ident signature? '{' tokens '}'
//!            | 'before' '{' tokens '}'
//!            | 'after' '{' tokens '}'
//! attribute := '#' '[' tokens ']'
//! signature := '-' '>' type 'async'?
//! ```
//!
//! A type runs up to the first `{` that stands outside any group of its own,
//! and must read as one Rust type; a name must read as an identifier that
//! is not a keyword. Both are judged by `syn` on the tokens' text.
//! Among the blocks of one group there is at most one `before` and at most
//! one `after`. The first error ends the parse; its position is the index of
//! the offending token, or the end of the enclosing group when the tokens ran
//! out there.
use vstd::prelude::*;
use vstd::string::StrSliceExecFns;
use crate::token::{Delim, Token, push_range};
use crate::block::{Block, BlockV, Root, SigV, Signature, attrs_view, lemma_views, sig_view, views};

verus! {

/// The kinds of parse error.
#[derive(Clone, Copy, Debug, PartialEq, Eq, Structural)]
pub enum ErrorKind {
    UnexpectedToken,
    UnterminatedBlock,
    MissingIdentifier,
    DuplicateHook,
    InvalidSignature,
}

/// A parse error and the index of the token it points at.
#[derive(Clone, Copy, Debug, PartialEq, Eq, Structural)]
pub struct ParseError {
    pub kind: ErrorKind,
    pub at: usize,
}

pub open spec fn err(kind: ErrorKind, at: int) -> ParseError {
    ParseError { kind, at: at as usize }
}

/// The keyword that starts a block.
#[derive(Clone, Copy, Debug, PartialEq, Eq, Structural)]
pub enum Kw {
    Scope,
    Unit,
    Setup,
    Teardown,
    Other,
}

pub open spec fn kw_of(t: Token) -> Kw {
    match t {
        Token::Ident(s) => if s@ == "describe"@ || s@ == "context"@ {
            Kw::Scope
        } else if s@ == "it"@ || s@ == "test"@ {
            Kw::Unit
        } else if s@ == "before"@ {
            Kw::Setup
        } else if s@ == "after"@ {
            Kw::Teardown
        } else {
            Kw::Other
        },
        _ => Kw::Other,
    }
}

pub open spec fn is_punct(t: Token, c: char) -> bool {
    match t {
        Token::Punct { ch, .. } => ch == c,
        _ => false,
    }
}

pub open spec fn is_word(t: Token, w: Seq<char>) -> bool {
    match t {
        Token::Ident(s) => s@ == w,
        _ => false,
    }
}

pub open spec fn open_char(d: Delim) -> char {
    match d {
        Delim::Paren => '(',
        Delim::Bracket => '[',
        Delim::Brace => '{',
    }
}

pub open spec fn close_char(d: Delim) -> char {
    match d {
        Delim::Paren => ')',
        Delim::Bracket => ']',
        Delim::Brace => '}',
    }
}

/// The source text of one token: a space after it, unless it is
/// punctuation glued to the next token.
pub open spec fn token_text(t: Token) -> Seq<char> {
    match t {
        Token::Ident(s) => s@.push(' '),
        Token::Literal(s) => s@.push(' '),
        Token::Punct { ch, joint } => if joint {
            seq![ch]
        } else {
            seq![ch, ' ']
        },
        Token::Open(d) => seq![open_char(d), ' '],
        Token::Close(d) => seq![close_char(d), ' '],
    }
}

/// The source text of a token sequence.
pub open spec fn tokens_text(ts: Seq<Token>) -> Seq<char>
    decreases ts.len(),
{
    if ts.len() == 0 {
        seq![]
    } else {
        tokens_text(ts.drop_last()) + token_text(ts.last())
    }
}

/// Whether a text, read as Rust tokens, is exactly one Rust type.
pub uninterp spec fn is_type(text: Seq<char>) -> bool;

/// Whether a text, read as Rust tokens, is exactly one identifier that is not a keyword.
pub uninterp spec fn is_ident(text: Seq<char>) -> bool;

/// Scans `ts[j..end)` for the token that closes the group opened at `open`,
/// `stack` holding the groups still open.
pub open spec fn close_scan(ts: Seq<Token>, j: int, end: int, stack: Seq<Delim>, open: int) -> Result<int, ParseError>
    decreases end - j,
{
    if j >= end {
        Err(err(ErrorKind::UnterminatedBlock, open))
    } else {
        match ts[j] {
            Token::Open(d) => close_scan(ts, j + 1, end, stack.push(d), open),
            Token::Close(d) => if stack.len() == 0 || stack.last() != d {
                Err(err(ErrorKind::UnexpectedToken, j))
            } else if stack.len() == 1 {
                Ok(j)
            } else {
                close_scan(ts, j + 1, end, stack.drop_last(), open)
            },
            _ => close_scan(ts, j + 1, end, stack, open),
        }
    }
}

/// The index of the token that closes the group opened at `open`, before `end`.
pub open spec fn group_close(ts: Seq<Token>, open: int, end: int) -> Result<int, ParseError> {
    match ts[open] {
        Token::Open(d) => close_scan(ts, open + 1, end, seq![d], open),
        _ => Err(err(ErrorKind::UnexpectedToken, open)),
    }
}

/// Scans a type from `j` for the `{` that ends it, `stack` holding the groups open inside it.
pub open spec fn type_scan(ts: Seq<Token>, j: int, end: int, stack: Seq<Delim>) -> Result<int, ParseError>
    decreases end - j,
{
    if j >= end {
        Err(err(ErrorKind::UnexpectedToken, end))
    } else {
        match ts[j] {
            Token::Open(d) => if d == Delim::Brace && stack.len() == 0 {
                Ok(j)
            } else {
                type_scan(ts, j + 1, end, stack.push(d))
            },
            Token::Close(d) => if stack.len() == 0 || stack.last() != d {
                Err(err(ErrorKind::UnexpectedToken, j))
            } else {
                type_scan(ts, j + 1, end, stack.drop_last())
            },
            _ => type_scan(ts, j + 1, end, stack),
        }
    }
}

/// The optional signature at `j`, and the index of the `{` after it.
pub open spec fn parse_sig(ts: Seq<Token>, j: int, end: int) -> Result<(Option<SigV>, int), ParseError> {
    if j + 1 < end && ts[j] == (Token::Punct { ch: '-', joint: true }) && is_punct(ts[j + 1], '>') {
        match type_scan(ts, j + 2, end, seq![]) {
            Err(e) => Err(e),
            Ok(k) => {
                let asy = k > j + 2 && is_word(ts[k - 1], "async"@);
                let stop = if asy { k - 1 } else { k };
                if stop == j + 2 || !is_type(tokens_text(ts.subrange(j + 2, stop))) {
                    Err(err(ErrorKind::InvalidSignature, j + 2))
                } else {
                    Ok((Some(SigV { ret: ts.subrange(j + 2, stop), is_async: asy }), k))
                }
            },
        }
    } else {
        Ok((None, j))
    }
}

/// The attributes from `i` on, and the index of the first token after them.
pub open spec fn parse_attrs(ts: Seq<Token>, i: int, end: int) -> Result<(Seq<Seq<Token>>, int), ParseError>
    decreases end - i,
{
    if i < end && is_punct(ts[i], '#') {
        if i + 1 >= end {
            Err(err(ErrorKind::UnexpectedToken, end))
        } else if ts[i + 1] != Token::Open(Delim::Bracket) {
            Err(err(ErrorKind::UnexpectedToken, i + 1))
        } else {
            match group_close(ts, i + 1, end) {
                Err(e) => Err(e),
                Ok(c) => {
                    proof {
                        lemma_group_close(ts, i + 1, end);
                    }
                    match parse_attrs(ts, c + 1, end) {
                        Err(e) => Err(e),
                        Ok((rest, k)) => Ok((seq![ts.subrange(i, c + 1)] + rest, k)),
                    }
                },
            }
        }
    } else {
        Ok((seq![], i))
    }
}

/// Everything of a block but its contents: the keyword, attributes, name,
/// signature and the indices of its braces.
pub struct Head {
    pub kw: Kw,
    pub attrs: Seq<Seq<Token>>,
    pub name: Seq<char>,
    pub sig: Option<SigV>,
    pub open: int,
    pub close: int,
}

/// The head of a block whose body's `{` should stand at `b`.
pub open spec fn body_head(
    ts: Seq<Token>,
    kw: Kw,
    attrs: Seq<Seq<Token>>,
    name: Seq<char>,
    sig: Option<SigV>,
    b: int,
    end: int,
) -> Result<Head, ParseError> {
    if b >= end {
        Err(err(ErrorKind::UnexpectedToken, end))
    } else if ts[b] != Token::Open(Delim::Brace) {
        Err(err(ErrorKind::UnexpectedToken, b))
    } else {
        match group_close(ts, b, end) {
            Err(e) => Err(e),
            Ok(c) => Ok(Head { kw, attrs, name, sig, open: b, close: c }),
        }
    }
}

/// The head of the block that starts at `i`.
pub open spec fn parse_head(ts: Seq<Token>, i: int, end: int) -> Result<Head, ParseError> {
    match parse_attrs(ts, i, end) {
        Err(e) => Err(e),
        Ok((attrs, k)) => if k >= end {
            Err(err(ErrorKind::UnexpectedToken, end))
        } else {
            let kw = kw_of(ts[k]);
            if kw == Kw::Other {
                Err(err(ErrorKind::UnexpectedToken, k))
            } else if kw == Kw::Setup || kw == Kw::Teardown {
                if attrs.len() > 0 {
                    Err(err(ErrorKind::UnexpectedToken, k))
                } else {
                    body_head(ts, kw, attrs, seq![], None, k + 1, end)
                }
            } else if k + 1 >= end || !(ts[k + 1] is Ident) || !is_ident(tokens_text(ts.subrange(k + 1, k + 2))) {
                Err(err(ErrorKind::MissingIdentifier, k + 1))
            } else {
                match parse_sig(ts, k + 2, end) {
                    Err(e) => Err(e),
                    Ok((sig, b)) => body_head(ts, kw, attrs, ts[k + 1]->Ident_0@, sig, b, end),
                }
            }
        },
    }
}

/// The block that starts at `i`.
pub open spec fn parse_block(ts: Seq<Token>, i: int, end: int) -> Result<BlockV, ParseError>
    decreases end - i, 0int,
{
    match parse_head(ts, i, end) {
        Err(e) => Err(e),
        Ok(h) => {
            proof {
                lemma_head(ts, i, end);
            }
            let inner = ts.subrange(h.open + 1, h.close);
            match h.kw {
                Kw::Scope => match parse_list(ts, h.open + 1, h.close, false, false) {
                    Err(e) => Err(e),
                    Ok(cs) => Ok(BlockV::Scope { name: h.name, attrs: h.attrs, sig: h.sig, children: cs }),
                },
                Kw::Unit => Ok(BlockV::Unit { name: h.name, attrs: h.attrs, sig: h.sig, body: inner }),
                Kw::Setup => Ok(BlockV::Setup(inner)),
                _ => Ok(BlockV::Teardown(inner)),
            }
        },
    }
}

/// The blocks of `ts[i..end)`; `seen_setup` and `seen_teardown` tell
/// whether a hook of that kind came earlier among the same siblings.
pub open spec fn parse_list(ts: Seq<Token>, i: int, end: int, seen_setup: bool, seen_teardown: bool) -> Result<Seq<BlockV>, ParseError>
    decreases end - i, 1int,
{
    if i >= end {
        Ok(seq![])
    } else {
        match parse_head(ts, i, end) {
            Err(e) => Err(e),
            Ok(h) => if (h.kw == Kw::Setup && seen_setup) || (h.kw == Kw::Teardown && seen_teardown) {
                Err(err(ErrorKind::DuplicateHook, i))
            } else {
                proof {
                    lemma_head(ts, i, end);
                }
                match parse_block(ts, i, end) {
                    Err(e) => Err(e),
                    Ok(b) => match parse_list(
                        ts,
                        h.close + 1,
                        end,
                        seen_setup || h.kw == Kw::Setup,
                        seen_teardown || h.kw == Kw::Teardown,
                    ) {
                        Err(e) => Err(e),
                        Ok(rest) => Ok(seq![b] + rest),
                    },
                }
            },
        }
    }
}

/// What a whole token sequence parses to: its top-level blocks.
pub open spec fn parse_tokens(ts: Seq<Token>) -> Result<Seq<BlockV>, ParseError> {
    parse_list(ts, 0, ts.len() as int, false, false)
}

pub proof fn lemma_close_scan(ts: Seq<Token>, j: int, end: int, stack: Seq<Delim>, open: int)
    ensures
        close_scan(ts, j, end, stack, open) matches Ok(c) ==> j <= c < end,
    decreases end - j,
{
    if j < end {
        lemma_close_scan(ts, j + 1, end, stack.push(Delim::Paren), open);
        lemma_close_scan(ts, j + 1, end, stack.push(Delim::Bracket), open);
        lemma_close_scan(ts, j + 1, end, stack.push(Delim::Brace), open);
        lemma_close_scan(ts, j + 1, end, stack.drop_last(), open);
        lemma_close_scan(ts, j + 1, end, stack, open);
    }
}

pub proof fn lemma_group_close(ts: Seq<Token>, open: int, end: int)
    ensures
        group_close(ts, open, end) matches Ok(c) ==> open < c < end,
{
    match ts[open] {
        Token::Open(d) => lemma_close_scan(ts, open + 1, end, seq![d], open),
        _ => {},
    }
}

pub proof fn lemma_type_scan(ts: Seq<Token>, j: int, end: int, stack: Seq<Delim>)
    ensures
        type_scan(ts, j, end, stack) matches Ok(k) ==> j <= k < end,
    decreases end - j,
{
    if j < end {
        lemma_type_scan(ts, j + 1, end, stack.push(Delim::Paren));
        lemma_type_scan(ts, j + 1, end, stack.push(Delim::Bracket));
        lemma_type_scan(ts, j + 1, end, stack.push(Delim::Brace));
        lemma_type_scan(ts, j + 1, end, stack.drop_last());
        lemma_type_scan(ts, j + 1, end, stack);
    }
}

pub proof fn lemma_attrs(ts: Seq<Token>, i: int, end: int)
    ensures
        parse_attrs(ts, i, end) matches Ok((_, k)) ==> i <= k,
    decreases end - i,
{
    if i < end && is_punct(ts[i], '#') && i + 1 < end {
        lemma_group_close(ts, i + 1, end);
        if let Ok(c) = group_close(ts, i + 1, end) {
            lemma_attrs(ts, c + 1, end);
        }
    }
}

pub proof fn lemma_head(ts: Seq<Token>, i: int, end: int)
    ensures
        parse_head(ts, i, end) matches Ok(h) ==> i <= h.open < h.close < end,
{
    lemma_attrs(ts, i, end);
    if let Ok((_, k)) = parse_attrs(ts, i, end) {
        lemma_type_scan(ts, k + 4, end, seq![]);
        if let Ok((_, b)) = parse_sig(ts, k + 2, end) {
            lemma_group_close(ts, b, end);
        }
        lemma_group_close(ts, k + 1, end);
    }
}

fn push_chars(out: &mut Vec<char>, s: &String)
    ensures
        final(out)@ == old(out)@ + s@,
{
    let t = s.as_str();
    let n = t.unicode_len();
    let mut i: usize = 0;
    while i < n
        invariant
            i <= n,
            n == s@.len(),
            t@ == s@,
            out@ == old(out)@ + s@.subrange(0, i as int),
        decreases n - i,
    {
        out.push(t.get_char(i));
        i += 1;
        assert(s@.subrange(0, i as int) =~= s@.subrange(0, i - 1).push(s@[i - 1]));
    }
    assert(s@.subrange(0, n as int) =~= s@);
}

fn push_token_text(out: &mut Vec<char>, t: &Token)
    ensures
        final(out)@ == old(out)@ + token_text(*t),
{
    let ghost start = out@;
    match t {
        Token::Ident(s) => {
            push_chars(out, s);
            out.push(' ');
        },
        Token::Literal(s) => {
            push_chars(out, s);
            out.push(' ');
        },
        Token::Punct { ch, joint } => {
            out.push(*ch);
            if !*joint {
                out.push(' ');
            }
        },
        Token::Open(d) => {
            out.push(
                match d {
                    Delim::Paren => '(',
                    Delim::Bracket => '[',
                    Delim::Brace => '{',
                },
            );
            out.push(' ');
        },
        Token::Close(d) => {
            out.push(
                match d {
                    Delim::Paren => ')',
                    Delim::Bracket => ']',
                    Delim::Brace => '}',
                },
            );
            out.push(' ');
        },
    }
    assert(out@ =~= start + token_text(*t));
}

/// The source text of `ts[lo..hi]`.
pub fn text_of(ts: &Vec<Token>, lo: usize, hi: usize) -> (r: Vec<char>)
    requires
        lo <= hi <= ts.len(),
    ensures
        r@ == tokens_text(ts@.subrange(lo as int, hi as int)),
{
    let mut out: Vec<char> = Vec::new();
    let mut i = lo;
    assert(ts@.subrange(lo as int, lo as int) =~= Seq::<Token>::empty());
    while i < hi
        invariant
            lo <= i <= hi <= ts.len(),
            out@ == tokens_text(ts@.subrange(lo as int, i as int)),
        decreases hi - i,
    {
        push_token_text(&mut out, &ts[i]);
        i += 1;
        assert(ts@.subrange(lo as int, i as int).drop_last() =~= ts@.subrange(lo as int, i - 1));
    }
    out
}

/// Relies on `syn::parse_str::<syn::Type>`: whether the text lexes and
/// parses, as a whole, as one Rust type; the answer depends on the text alone.
#[verifier::external_body]
fn parses_as_type(text: &Vec<char>) -> (r: bool)
    ensures
        r == is_type(text@),
{
    let s: String = text.iter().collect();
    syn::parse_str::<syn::Type>(&s).is_ok()
}

/// Relies on `syn::parse_str::<syn::Ident>`: whether the text lexes and
/// parses, as a whole, as one identifier other than a keyword or `_`; the
/// answer depends on the text alone.
#[verifier::external_body]
fn parses_as_ident(text: &Vec<char>) -> (r: bool)
    ensures
        r == is_ident(text@),
{
    let s: String = text.iter().collect();
    syn::parse_str::<syn::Ident>(&s).is_ok()
}

fn fail<T>(kind: ErrorKind, at: usize) -> (r: Result<T, ParseError>)
    ensures
        r == Err::<T, ParseError>(err(kind, at as int)),
{
    Err(ParseError { kind, at })
}

fn word_is(s: &String, w: &str) -> (r: bool)
    ensures
        r == (s@ == w@),
{
    let o = w.to_owned();
    s.eq(&o)
}

fn keyword(t: &Token) -> (r: Kw)
    ensures
        r == kw_of(*t),
{
    match t {
        Token::Ident(s) => if word_is(s, "describe") || word_is(s, "context") {
            Kw::Scope
        } else if word_is(s, "it") || word_is(s, "test") {
            Kw::Unit
        } else if word_is(s, "before") {
            Kw::Setup
        } else if word_is(s, "after") {
            Kw::Teardown
        } else {
            Kw::Other
        },
        _ => Kw::Other,
    }
}

fn punct_is(t: &Token, c: char) -> (r: bool)
    ensures
        r == is_punct(*t, c),
{
    match t {
        Token::Punct { ch, .. } => *ch == c,
        _ => false,
    }
}

fn opens(t: &Token, d: Delim) -> (r: bool)
    ensures
        r == (*t == Token::Open(d)),
{
    match t {
        Token::Open(x) => *x == d,
        _ => false,
    }
}

pub open spec fn int_result(r: Result<usize, ParseError>) -> Result<int, ParseError> {
    match r {
        Ok(c) => Ok(c as int),
        Err(e) => Err(e),
    }
}

/// Finds the token that closes the group opened at `open`, before `end`.
fn find_close(ts: &Vec<Token>, open: usize, end: usize) -> (r: Result<usize, ParseError>)
    requires
        open < end <= ts.len(),
    ensures
        int_result(r) == group_close(ts@, open as int, end as int),
{
    let d = match &ts[open] {
        Token::Open(d) => *d,
        _ => return fail(ErrorKind::UnexpectedToken, open),
    };
    let mut stack: Vec<Delim> = Vec::new();
    stack.push(d);
    assert(stack@ =~= seq![d]);
    let mut j = open + 1;
    while j < end
        invariant
            open < j <= end <= ts.len(),
            close_scan(ts@, j as int, end as int, stack@, open as int) == group_close(ts@, open as int, end as int),
        decreases end - j,
    {
        match &ts[j] {
            Token::Open(x) => {
                stack.push(*x);
            },
            Token::Close(x) => {
                if stack.len() == 0 || stack[stack.len() - 1] != *x {
                    return fail(ErrorKind::UnexpectedToken, j);
                }
                if stack.len() == 1 {
                    return Ok(j);
                }
                stack.pop();
            },
            _ => {},
        }
        j += 1;
    }
    fail(ErrorKind::UnterminatedBlock, open)
}

/// Finds the `{` that ends a type starting at `j`.
fn find_type_end(ts: &Vec<Token>, j0: usize, end: usize) -> (r: Result<usize, ParseError>)
    requires
        j0 <= end <= ts.len(),
    ensures
        int_result(r) == type_scan(ts@, j0 as int, end as int, seq![]),
{
    let mut stack: Vec<Delim> = Vec::new();
    assert(stack@ =~= seq![]);
    let mut j = j0;
    while j < end
        invariant
            j0 <= j <= end <= ts.len(),
            type_scan(ts@, j as int, end as int, stack@) == type_scan(ts@, j0 as int, end as int, seq![]),
        decreases end - j,
    {
        match &ts[j] {
            Token::Open(x) => {
                if *x == Delim::Brace && stack.len() == 0 {
                    return Ok(j);
                }
                stack.push(*x);
            },
            Token::Close(x) => {
                if stack.len() == 0 || stack[stack.len() - 1] != *x {
                    return fail(ErrorKind::UnexpectedToken, j);
                }
                stack.pop();
            },
            _ => {},
        }
        j += 1;
    }
    fail(ErrorKind::UnexpectedToken, end)
}

fn sig_at(ts: &Vec<Token>, j: usize, end: usize) -> (r: Result<(Option<Signature>, usize), ParseError>)
    requires
        j <= end <= ts.len(),
    ensures
        match r {
            Ok((s, b)) => parse_sig(ts@, j as int, end as int) == Ok::<(Option<SigV>, int), ParseError>((sig_view(s), b as int)),
            Err(e) => parse_sig(ts@, j as int, end as int) == Err::<(Option<SigV>, int), ParseError>(e),
        },
{
    let arrow = end - j > 1 && match &ts[j] {
        Token::Punct { ch, joint } => *ch == '-' && *joint,
        _ => false,
    } && punct_is(&ts[j + 1], '>');
    if !arrow {
        return Ok((None, j));
    }
    let k = match find_type_end(ts, j + 2, end) {
        Ok(k) => k,
        Err(e) => return Err(e),
    };
    proof {
        lemma_type_scan(ts@, j + 2, end as int, seq![]);
    }
    let asy = k > j + 2 && match &ts[k - 1] {
        Token::Ident(s) => word_is(s, "async"),
        _ => false,
    };
    let stop = if asy { k - 1 } else { k };
    if stop == j + 2 {
        return fail(ErrorKind::InvalidSignature, j + 2);
    }
    if !parses_as_type(&text_of(ts, j + 2, stop)) {
        return fail(ErrorKind::InvalidSignature, j + 2);
    }
    let mut ret: Vec<Token> = Vec::new();
    push_range(&mut ret, ts, j + 2, stop);
    assert(ret@ =~= ts@.subrange(j + 2, stop as int));
    Ok((Some(Signature { ret, is_async: asy }), k))
}

fn attrs_at(ts: &Vec<Token>, i: usize, end: usize) -> (r: Result<(Vec<Vec<Token>>, usize), ParseError>)
    requires
        i <= end <= ts.len(),
    ensures
        match r {
            Ok((a, k)) => parse_attrs(ts@, i as int, end as int) == Ok::<(Seq<Seq<Token>>, int), ParseError>((attrs_view(a), k as int)),
            Err(e) => parse_attrs(ts@, i as int, end as int) == Err::<(Seq<Seq<Token>>, int), ParseError>(e),
        },
{
    let mut acc: Vec<Vec<Token>> = Vec::new();
    let mut j = i;
    assert(attrs_view(acc) =~= seq![]);
    loop
        invariant
            i <= j <= end <= ts.len(),
            parse_attrs(ts@, i as int, end as int) == match parse_attrs(ts@, j as int, end as int) {
                Ok((rest, k)) => Ok((attrs_view(acc) + rest, k)),
                Err(e) => Err(e),
            },
        decreases end - j,
    {
        if !(j < end && punct_is(&ts[j], '#')) {
            assert(attrs_view(acc) + seq![] =~= attrs_view(acc));
            return Ok((acc, j));
        }
        if j + 1 >= end {
            return fail(ErrorKind::UnexpectedToken, end);
        }
        if !opens(&ts[j + 1], Delim::Bracket) {
            return fail(ErrorKind::UnexpectedToken, j + 1);
        }
        let c = match find_close(ts, j + 1, end) {
            Ok(c) => c,
            Err(e) => return Err(e),
        };
        proof {
            lemma_group_close(ts@, j + 1, end as int);
        }
        let mut a: Vec<Token> = Vec::new();
        push_range(&mut a, ts, j, c + 1);
        let ghost old_acc = attrs_view(acc);
        let ghost sub = ts@.subrange(j as int, c + 1);
        acc.push(a);
        proof {
            assert(attrs_view(acc) =~= old_acc.push(sub));
            match parse_attrs(ts@, c + 1, end as int) {
                Ok((rest, k)) => {
                    assert(old_acc + (seq![sub] + rest) =~= attrs_view(acc) + rest);
                },
                Err(e) => {},
            }
        }
        j = c + 1;
    }
}

/// The exec counterpart of [`Head`].
struct HeadX {
    kw: Kw,
    attrs: Vec<Vec<Token>>,
    name: String,
    sig: Option<Signature>,
    open: usize,
    close: usize,
}

impl HeadX {
    spec fn view(&self) -> Head {
        Head {
            kw: self.kw,
            attrs: attrs_view(self.attrs),
            name: self.name@,
            sig: sig_view(self.sig),
            open: self.open as int,
            close: self.close as int,
        }
    }
}

fn head_with_body(
    ts: &Vec<Token>,
    kw: Kw,
    attrs: Vec<Vec<Token>>,
    name: String,
    sig: Option<Signature>,
    b: usize,
    end: usize,
) -> (r: Result<HeadX, ParseError>)
    requires
        end <= ts.len(),
    ensures
        match r {
            Ok(h) => body_head(ts@, kw, attrs_view(attrs), name@, sig_view(sig), b as int, end as int) == Ok::<Head, ParseError>(h@),
            Err(e) => body_head(ts@, kw, attrs_view(attrs), name@, sig_view(sig), b as int, end as int) == Err::<Head, ParseError>(e),
        },
{
    if b >= end {
        return fail(ErrorKind::UnexpectedToken, end);
    }
    if !opens(&ts[b], Delim::Brace) {
        return fail(ErrorKind::UnexpectedToken, b);
    }
    match find_close(ts, b, end) {
        Ok(c) => Ok(HeadX { kw, attrs, name, sig, open: b, close: c }),
        Err(e) => Err(e),
    }
}

fn head_at(ts: &Vec<Token>, i: usize, end: usize) -> (r: Result<HeadX, ParseError>)
    requires
        i <= end <= ts.len(),
    ensures
        match r {
            Ok(h) => parse_head(ts@, i as int, end as int) == Ok::<Head, ParseError>(h@),
            Err(e) => parse_head(ts@, i as int, end as int) == Err::<Head, ParseError>(e),
        },
{
    let (attrs, k) = match attrs_at(ts, i, end) {
        Ok(x) => x,
        Err(e) => return Err(e),
    };
    proof {
        lemma_attrs(ts@, i as int, end as int);
    }
    if k >= end {
        return fail(ErrorKind::UnexpectedToken, end);
    }
    let kw = keyword(&ts[k]);
    if kw == Kw::Other {
        return fail(ErrorKind::UnexpectedToken, k);
    }
    if kw == Kw::Setup || kw == Kw::Teardown {
        if attrs.len() > 0 {
            return fail(ErrorKind::UnexpectedToken, k);
        }
        let ghost e: Seq<Seq<Token>> = seq![];
        assert(attrs_view(attrs) =~= e);
        let name = String::new();
        assert(name@ =~= seq![]);
        return head_with_body(ts, kw, attrs, name, None, k + 1, end);
    }
    if k + 1 >= end {
        return fail(ErrorKind::MissingIdentifier, k + 1);
    }
    let name = match &ts[k + 1] {
        Token::Ident(s) => s.clone(),
        _ => return fail(ErrorKind::MissingIdentifier, k + 1),
    };
    if !parses_as_ident(&text_of(ts, k + 1, k + 2)) {
        return fail(ErrorKind::MissingIdentifier, k + 1);
    }
    let (sig, b) = match sig_at(ts, k + 2, end) {
        Ok(x) => x,
        Err(e) => return Err(e),
    };
    head_with_body(ts, kw, attrs, name, sig, b, end)
}

proof fn lemma_views_push(v: Vec<Block>, x: Block, w: Vec<Block>)
    requires
        w@ == v@.push(x),
    ensures
        views(w, w.len() as int) == views(v, v.len() as int).push(x@),
{
    lemma_views(v, v.len() as int);
    lemma_views(w, w.len() as int);
    assert(views(w, w.len() as int) =~= views(v, v.len() as int).push(x@));
}

fn block_from(ts: &Vec<Token>, h: HeadX, Ghost(i): Ghost<int>, Ghost(end): Ghost<int>) -> (r: Result<Block, ParseError>)
    requires
        0 <= i <= end <= ts.len(),
        parse_head(ts@, i, end) == Ok::<Head, ParseError>(h@),
    ensures
        match r {
            Ok(b) => parse_block(ts@, i, end) == Ok::<BlockV, ParseError>(b@),
            Err(e) => parse_block(ts@, i, end) == Err::<BlockV, ParseError>(e),
        },
    decreases end - i, 0int,
{
    proof {
        lemma_head(ts@, i, end);
    }
    let mut inner: Vec<Token> = Vec::new();
    if h.kw != Kw::Scope {
        push_range(&mut inner, ts, h.open + 1, h.close);
        assert(inner@ =~= ts@.subrange(h.open + 1, h.close as int));
    }
    match h.kw {
        Kw::Scope => match blocks_in(ts, h.open + 1, h.close, false, false) {
            Ok(cs) => Ok(Block::Scope { name: h.name, attrs: h.attrs, sig: h.sig, children: cs }),
            Err(e) => Err(e),
        },
        Kw::Unit => Ok(Block::Unit { name: h.name, attrs: h.attrs, sig: h.sig, body: inner }),
        Kw::Setup => Ok(Block::Setup(inner)),
        _ => Ok(Block::Teardown(inner)),
    }
}

pub open spec fn prepend(acc: Seq<BlockV>, r: Result<Seq<BlockV>, ParseError>) -> Result<Seq<BlockV>, ParseError> {
    match r {
        Ok(rest) => Ok(acc + rest),
        Err(e) => Err(e),
    }
}

fn blocks_in(ts: &Vec<Token>, i0: usize, end: usize, seen_setup0: bool, seen_teardown0: bool) -> (r: Result<Vec<Block>, ParseError>)
    requires
        i0 <= end <= ts.len(),
    ensures
        match r {
            Ok(cs) => parse_list(ts@, i0 as int, end as int, seen_setup0, seen_teardown0) == Ok::<Seq<BlockV>, ParseError>(views(cs, cs.len() as int)),
            Err(e) => parse_list(ts@, i0 as int, end as int, seen_setup0, seen_teardown0) == Err::<Seq<BlockV>, ParseError>(e),
        },
    decreases end - i0, 1int,
{
    let mut acc: Vec<Block> = Vec::new();
    let mut i = i0;
    let mut seen_setup = seen_setup0;
    let mut seen_teardown = seen_teardown0;
    proof {
        lemma_views(acc, 0);
        assert(views(acc, 0) =~= seq![]);
        match parse_list(ts@, i0 as int, end as int, seen_setup0, seen_teardown0) {
            Ok(rest) => assert(seq![] + rest =~= rest),
            Err(e) => {},
        }
    }
    while i < end
        invariant
            i0 <= i <= end <= ts.len(),
            parse_list(ts@, i0 as int, end as int, seen_setup0, seen_teardown0)
                == prepend(views(acc, acc.len() as int), parse_list(ts@, i as int, end as int, seen_setup, seen_teardown)),
        decreases end - i,
    {
        let h = match head_at(ts, i, end) {
            Ok(h) => h,
            Err(e) => return Err(e),
        };
        proof {
            lemma_head(ts@, i as int, end as int);
        }
        if (h.kw == Kw::Setup && seen_setup) || (h.kw == Kw::Teardown && seen_teardown) {
            return fail(ErrorKind::DuplicateHook, i);
        }
        let kw = h.kw;
        let next = h.close + 1;
        let b = match block_from(ts, h, Ghost(i as int), Ghost(end as int)) {
            Ok(b) => b,
            Err(e) => return Err(e),
        };
        let ghost old_acc = acc;
        let ghost bv = b@;
        acc.push(b);
        proof {
            lemma_views_push(old_acc, b, acc);
            let nxt = parse_list(ts@, next as int, end as int, seen_setup || kw == Kw::Setup, seen_teardown || kw == Kw::Teardown);
            match nxt {
                Ok(rest) => {
                    assert(views(old_acc, old_acc.len() as int) + (seq![bv] + rest)
                        =~= views(acc, acc.len() as int) + rest);
                },
                Err(e) => {},
            }
        }
        seen_setup = seen_setup || kw == Kw::Setup;
        seen_teardown = seen_teardown || kw == Kw::Teardown;
        i = next;
    }
    proof {
        assert(views(acc, acc.len() as int) + seq![] =~= views(acc, acc.len() as int));
    }
    Ok(acc)
}

/// Parses a whole token sequence into its tree of blocks.
pub fn parse(ts: &Vec<Token>) -> (r: Result<Root, ParseError>)
    ensures
        match r {
            Ok(root) => parse_tokens(ts@) == Ok::<Seq<BlockV>, ParseError>(root@),
            Err(e) => parse_tokens(ts@) == Err::<Seq<BlockV>, ParseError>(e),
        },
{
    match blocks_in(ts, 0, ts.len(), false, false) {
        Ok(children) => Ok(Root { children }),
        Err(e) => Err(e),
    }
}

} // verus!
