//! The reserved words of Lox.
use vstd::prelude::*;

verus! {

/// The reserved words of Lox, each named by its position in this list.
pub enum Keyword {
    And,
    Class,
    Else,
    False,
    For,
    Fun,
    If,
    Nil,
    Or,
    Print,
    Return,
    Super,
    This,
    True,
    Var,
    While,
}

/// The reserved word spelled by `word`, if any.
pub open spec fn keyword_of(word: Seq<char>) -> Option<Keyword> {
    if word == seq!['a', 'n', 'd'] { Some(Keyword::And) }
    else if word == seq!['c', 'l', 'a', 's', 's'] { Some(Keyword::Class) }
    else if word == seq!['e', 'l', 's', 'e'] { Some(Keyword::Else) }
    else if word == seq!['f', 'a', 'l', 's', 'e'] { Some(Keyword::False) }
    else if word == seq!['f', 'o', 'r'] { Some(Keyword::For) }
    else if word == seq!['f', 'u', 'n'] { Some(Keyword::Fun) }
    else if word == seq!['i', 'f'] { Some(Keyword::If) }
    else if word == seq!['n', 'i', 'l'] { Some(Keyword::Nil) }
    else if word == seq!['o', 'r'] { Some(Keyword::Or) }
    else if word == seq!['p', 'r', 'i', 'n', 't'] { Some(Keyword::Print) }
    else if word == seq!['r', 'e', 't', 'u', 'r', 'n'] { Some(Keyword::Return) }
    else if word == seq!['s', 'u', 'p', 'e', 'r'] { Some(Keyword::Super) }
    else if word == seq!['t', 'h', 'i', 's'] { Some(Keyword::This) }
    else if word == seq!['t', 'r', 'u', 'e'] { Some(Keyword::True) }
    else if word == seq!['v', 'a', 'r'] { Some(Keyword::Var) }
    else if word == seq!['w', 'h', 'i', 'l', 'e'] { Some(Keyword::While) }
    else { None }
}

/// Whether `src[start..end]` spells `word`.
pub fn spells(src: &Vec<char>, start: usize, end: usize, word: &[char]) -> (b: bool)
    requires
        start <= end <= src.len(),
    ensures
        b == (src@.subrange(start as int, end as int) == word@),
{
    if end - start != word.len() {
        proof {
            assert(src@.subrange(start as int, end as int).len() != word@.len());
        }
        return false;
    }
    let mut i: usize = 0;
    while i < word.len()
        invariant
            end - start == word.len(),
            start <= end <= src.len(),
            i <= word.len(),
            forall|j: int| 0 <= j < i ==> src@[start + j] == word@[j],
        decreases word.len() - i,
    {
        if src[start + i] != word[i] {
            assert(src@.subrange(start as int, end as int)[i as int] != word@[i as int]);
            return false;
        }
        i = i + 1;
    }
    assert(src@.subrange(start as int, end as int) =~= word@);
    true
}

/// The reserved word spelled by `src[start..end]`, if any.
pub fn keyword_in(src: &Vec<char>, start: usize, end: usize) -> (k: Option<Keyword>)
    requires
        start <= end <= src.len(),
    ensures
        k == keyword_of(src@.subrange(start as int, end as int)),
{
    let ghost w = src@.subrange(start as int, end as int);
    if spells(src, start, end, &['a', 'n', 'd']) { assert(w =~= seq!['a', 'n', 'd']); return Some(Keyword::And); }
    if spells(src, start, end, &['c', 'l', 'a', 's', 's']) { assert(w =~= seq!['c', 'l', 'a', 's', 's']); return Some(Keyword::Class); }
    if spells(src, start, end, &['e', 'l', 's', 'e']) { assert(w =~= seq!['e', 'l', 's', 'e']); return Some(Keyword::Else); }
    if spells(src, start, end, &['f', 'a', 'l', 's', 'e']) { assert(w =~= seq!['f', 'a', 'l', 's', 'e']); return Some(Keyword::False); }
    if spells(src, start, end, &['f', 'o', 'r']) { assert(w =~= seq!['f', 'o', 'r']); return Some(Keyword::For); }
    if spells(src, start, end, &['f', 'u', 'n']) { assert(w =~= seq!['f', 'u', 'n']); return Some(Keyword::Fun); }
    if spells(src, start, end, &['i', 'f']) { assert(w =~= seq!['i', 'f']); return Some(Keyword::If); }
    if spells(src, start, end, &['n', 'i', 'l']) { assert(w =~= seq!['n', 'i', 'l']); return Some(Keyword::Nil); }
    if spells(src, start, end, &['o', 'r']) { assert(w =~= seq!['o', 'r']); return Some(Keyword::Or); }
    if spells(src, start, end, &['p', 'r', 'i', 'n', 't']) { assert(w =~= seq!['p', 'r', 'i', 'n', 't']); return Some(Keyword::Print); }
    if spells(src, start, end, &['r', 'e', 't', 'u', 'r', 'n']) { assert(w =~= seq!['r', 'e', 't', 'u', 'r', 'n']); return Some(Keyword::Return); }
    if spells(src, start, end, &['s', 'u', 'p', 'e', 'r']) { assert(w =~= seq!['s', 'u', 'p', 'e', 'r']); return Some(Keyword::Super); }
    if spells(src, start, end, &['t', 'h', 'i', 's']) { assert(w =~= seq!['t', 'h', 'i', 's']); return Some(Keyword::This); }
    if spells(src, start, end, &['t', 'r', 'u', 'e']) { assert(w =~= seq!['t', 'r', 'u', 'e']); return Some(Keyword::True); }
    if spells(src, start, end, &['v', 'a', 'r']) { assert(w =~= seq!['v', 'a', 'r']); return Some(Keyword::Var); }
    if spells(src, start, end, &['w', 'h', 'i', 'l', 'e']) { assert(w =~= seq!['w', 'h', 'i', 'l', 'e']); return Some(Keyword::While); }
    None
}

} // verus!
