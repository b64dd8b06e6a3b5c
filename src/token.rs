//! The token model of an annotation body.
use vstd::prelude::*;

verus! {

/// The delimiter of a token group.
#[derive(Clone, Copy, Debug, PartialEq, Eq, Structural)]
pub enum Delim {
    Paren,
    Bracket,
    Brace,
}

/// Whether a punctuation character is joined to the next one (`::`, `=>`).
#[derive(Clone, Copy, Debug, PartialEq, Eq, Structural)]
pub enum Spacing {
    Alone,
    Joint,
}

/// One token of an annotation body. Groups are flattened: a group is an
/// `Open` token, its contents, and the matching `Close` token.
#[derive(Debug)]
pub enum Tok {
    Ident(String),
    Punct(char, Spacing),
    /// A literal, as written in the source (`"a\"b"`, `456`, `99usize`, `3.5`).
    Lit(String),
    Open(Delim),
    Close(Delim),
}

impl Tok {
    /// A copy of the token.
    pub fn copy(&self) -> (r: Tok)
        ensures
            r == *self,
    {
        match self {
            Tok::Ident(s) => Tok::Ident(s.clone()),
            Tok::Punct(c, sp) => Tok::Punct(*c, *sp),
            Tok::Lit(s) => Tok::Lit(s.clone()),
            Tok::Open(d) => Tok::Open(*d),
            Tok::Close(d) => Tok::Close(*d),
        }
    }

    pub fn is_punct(&self, c: char) -> (r: bool)
        ensures
            r == (*self matches Tok::Punct(d, _) && d == c),
    {
        match self {
            Tok::Punct(d, _) => *d == c,
            _ => false,
        }
    }
}

/// Whether position `i` of `t`, below `end`, holds the punctuation `c`.
pub open spec fn punct_at(t: Seq<Tok>, i: int, end: int, c: char) -> bool {
    0 <= i < end && i < t.len() && (t[i] matches Tok::Punct(d, _) && d == c)
}

/// Scanning from `i` inside a group opened `depth` levels deeper than the
/// group sought, the position of the token that closes it, if any before `end`.
pub open spec fn group_close(t: Seq<Tok>, i: int, end: int, depth: nat) -> Option<int>
    decreases end - i,
{
    if i < 0 || i >= end || i >= t.len() {
        None
    } else {
        match t[i] {
            Tok::Open(_) => group_close(t, i + 1, end, depth + 1),
            Tok::Close(_) => if depth == 0 {
                Some(i)
            } else {
                group_close(t, i + 1, end, (depth - 1) as nat)
            },
            _ => group_close(t, i + 1, end, depth),
        }
    }
}

/// Where a parenthesised group starts at `pos`, the position of its closing token.
pub open spec fn paren_close(t: Seq<Tok>, pos: int, end: int) -> Option<int> {
    if 0 <= pos < end && pos < t.len() && t[pos] == Tok::Open(Delim::Paren) {
        group_close(t, pos + 1, end, 0)
    } else {
        None
    }
}

pub proof fn lemma_group_close_bounds(t: Seq<Tok>, i: int, end: int, depth: nat)
    ensures
        group_close(t, i, end, depth) matches Some(c) ==> i <= c < end && c < t.len() && t[c] is Close,
    decreases end - i,
{
    if 0 <= i < end && i < t.len() {
        match t[i] {
            Tok::Open(_) => lemma_group_close_bounds(t, i + 1, end, depth + 1),
            Tok::Close(_) => if depth != 0 {
                lemma_group_close_bounds(t, i + 1, end, (depth - 1) as nat)
            },
            _ => lemma_group_close_bounds(t, i + 1, end, depth),
        }
    }
}

/// The position of the token closing the parenthesised group that starts at `pos`.
pub fn find_paren_close(toks: &Vec<Tok>, pos: usize, end: usize) -> (r: Option<usize>)
    requires
        end <= toks@.len(),
    ensures
        r matches Some(c) ==> paren_close(toks@, pos as int, end as int) == Some(c as int),
        r is None ==> paren_close(toks@, pos as int, end as int) is None,
{
    if pos >= end {
        return None;
    }
    let opens = match &toks[pos] {
        Tok::Open(d) => *d == Delim::Paren,
        _ => false,
    };
    if !opens {
        return None;
    }
    assert(toks@[pos as int] == Tok::Open(Delim::Paren));
    let mut i: usize = pos + 1;
    let mut depth: usize = 0;
    while i < end
        invariant
            pos < i <= end <= toks@.len(),
            depth <= i,
            toks@[pos as int] == Tok::Open(Delim::Paren),
            group_close(toks@, pos + 1, end as int, 0) == group_close(toks@, i as int, end as int, depth as nat),
        decreases end - i,
    {
        match &toks[i] {
            Tok::Open(_) => {
                depth = depth + 1;
            },
            Tok::Close(_) => {
                if depth == 0 {
                    return Some(i);
                }
                depth = depth - 1;
            },
            _ => {},
        }
        i = i + 1;
    }
    None
}

/// The position of the token closing the group whose contents start at `from`.
pub fn find_close(toks: &Vec<Tok>, from: usize, end: usize) -> (r: Option<usize>)
    requires
        end <= toks@.len(),
    ensures
        r matches Some(c) ==> group_close(toks@, from as int, end as int, 0) == Some(c as int),
        r is None ==> group_close(toks@, from as int, end as int, 0) is None,
{
    let mut i: usize = from;
    let mut depth: usize = 0;
    if i >= end {
        return None;
    }
    while i < end
        invariant
            from <= i <= end <= toks@.len(),
            depth <= i,
            group_close(toks@, from as int, end as int, 0) == group_close(toks@, i as int, end as int, depth as nat),
        decreases end - i,
    {
        match &toks[i] {
            Tok::Open(_) => {
                depth = depth + 1;
            },
            Tok::Close(_) => {
                if depth == 0 {
                    return Some(i);
                }
                depth = depth - 1;
            },
            _ => {},
        }
        i = i + 1;
    }
    None
}

/// The position after the token tree that starts at `i`: a group with its
/// closing token, or one token.
pub open spec fn tree_end(t: Seq<Tok>, i: int, end: int) -> int {
    if 0 <= i < t.len() && t[i] is Open {
        match group_close(t, i + 1, end, 0) {
            Some(c) => c + 1,
            None => end,
        }
    } else {
        i + 1
    }
}

/// How many token trees stand from `i` up to `end`.
pub open spec fn tree_count(t: Seq<Tok>, i: int, end: int) -> nat
    decreases end - i,
{
    if i < 0 || i >= end {
        0
    } else {
        let e = tree_end(t, i, end);
        if e <= i || e > end {
            0
        } else {
            1 + tree_count(t, e, end)
        }
    }
}

/// The position after `n` token trees from `i`.
pub open spec fn trees_after(t: Seq<Tok>, i: int, end: int, n: nat) -> int
    decreases n,
{
    if n == 0 || i < 0 || i >= end {
        i
    } else {
        let e = tree_end(t, i, end);
        if e <= i || e > end {
            i
        } else {
            trees_after(t, e, end, (n - 1) as nat)
        }
    }
}

fn tree_end_exec(toks: &Vec<Tok>, i: usize, end: usize) -> (r: usize)
    requires
        i < end <= toks@.len(),
    ensures
        r as int == tree_end(toks@, i as int, end as int),
        i < r <= end,
{
    match &toks[i] {
        Tok::Open(_) => {
            proof {
                lemma_group_close_bounds(toks@, i + 1, end as int, 0);
            }
            match find_close(toks, i + 1, end) {
                Some(c) => c + 1,
                None => end,
            }
        },
        _ => i + 1,
    }
}

/// How many token trees stand from `pos` up to `end`.
pub fn count_trees(toks: &Vec<Tok>, pos: usize, end: usize) -> (r: usize)
    requires
        pos <= end <= toks@.len(),
    ensures
        r as int == tree_count(toks@, pos as int, end as int),
{
    let mut i: usize = pos;
    let mut n: usize = 0;
    while i < end
        invariant
            pos <= i <= end <= toks@.len(),
            n <= i - pos,
            tree_count(toks@, pos as int, end as int) == n + tree_count(toks@, i as int, end as int),
        decreases end - i,
    {
        i = tree_end_exec(toks, i, end);
        n = n + 1;
    }
    n
}

/// The position after `n` token trees from `pos`.
pub fn skip_trees(toks: &Vec<Tok>, pos: usize, end: usize, n: usize) -> (r: usize)
    requires
        pos <= end <= toks@.len(),
    ensures
        r as int == trees_after(toks@, pos as int, end as int, n as nat),
        pos <= r <= end,
{
    let mut i: usize = pos;
    let mut k: usize = n;
    while k > 0 && i < end
        invariant
            pos <= i <= end <= toks@.len(),
            trees_after(toks@, pos as int, end as int, n as nat) == trees_after(toks@, i as int, end as int, k as nat),
        decreases k,
    {
        i = tree_end_exec(toks, i, end);
        k = k - 1;
    }
    i
}

/// Copies of the tokens `lo..hi`.
pub fn copy_range(toks: &Vec<Tok>, lo: usize, hi: usize) -> (r: Vec<Tok>)
    requires
        lo <= hi <= toks@.len(),
    ensures
        r@ == toks@.subrange(lo as int, hi as int),
{
    let mut out: Vec<Tok> = Vec::new();
    let mut i: usize = lo;
    while i < hi
        invariant
            lo <= i <= hi <= toks@.len(),
            out@ == toks@.subrange(lo as int, i as int),
        decreases hi - i,
    {
        out.push(toks[i].copy());
        proof {
            assert(toks@.subrange(lo as int, i + 1) == toks@.subrange(lo as int, i as int).push(toks@[i as int]));
        }
        i = i + 1;
    }
    out
}

} // verus!
