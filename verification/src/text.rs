//! Moving between strings and sequences of characters.

use vstd::prelude::*;

verus! {

/// `String::push` of the standard library: it appends the character `ch` to
/// the end of the string and leaves what was there before untouched.
pub assume_specification[ std::string::String::push ](s: &mut std::string::String, ch: char)
    ensures
        final(s)@ == old(s)@.push(ch),
;

/// The characters of `s`, in order.
pub fn chars_of(s: &str) -> (chars: Vec<char>)
    ensures
        chars@ == s@,
{
    let mut chars: Vec<char> = Vec::new();
    for c in it: s.chars()
        invariant
            it.seq() == s@,
            chars@ == it.seq().take(it.index() as int),
    {
        chars.push(c);
    }
    chars
}

/// The string that holds `chars[from..to]`.
pub fn text_of(chars: &Vec<char>, from: usize, to: usize) -> (s: String)
    requires
        from <= to <= chars.len(),
    ensures
        s@ == chars@.subrange(from as int, to as int),
{
    let mut s = String::new();
    let mut i: usize = from;
    while i < to
        invariant
            from <= i <= to <= chars.len(),
            s@ == chars@.subrange(from as int, i as int),
        decreases to - i,
    {
        s.push(chars[i]);
        assert(chars@.subrange(from as int, i as int).push(chars@[i as int])
            =~= chars@.subrange(from as int, i as int + 1));
        i = i + 1;
    }
    s
}

/// Whether `chars[from..to]` spells exactly `word`.
pub fn spells(chars: &Vec<char>, from: usize, to: usize, word: &str) -> (r: bool)
    requires
        from <= to <= chars.len(),
    ensures
        r == (chars@.subrange(from as int, to as int) == word@),
{
    let ghost span = chars@.subrange(from as int, to as int);
    let mut i: usize = from;
    for c in it: word.chars()
        invariant
            it.seq() == word@,
            from <= to <= chars.len(),
            span == chars@.subrange(from as int, to as int),
            i == from + it.index(),
            i <= to,
            span.take(it.index() as int) == word@.take(it.index() as int),
    {
        if i >= to {
            assert(span.len() < word@.len());
            return false;
        }
        if chars[i] != c {
            assert(span[i - from] != word@[i - from]);
            return false;
        }
        assert(span.take(i - from + 1) =~= span.take(i - from).push(span[i - from]));
        assert(word@.take(i - from + 1) =~= word@.take(i - from).push(word@[i - from]));
        i = i + 1;
    }
    assert(word@.take(word@.len() as int) =~= word@);
    if i == to {
        assert(span.take(span.len() as int) =~= span);
        true
    } else {
        assert(span.len() > word@.len());
        false
    }
}

} // verus!
