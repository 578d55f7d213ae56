//! Moving between strings and indexable buffers of characters.

use vstd::prelude::*;

verus! {

/// `String::push`, as the standard library documents it: the character is
/// appended to the end of the string, and what was there before stays in
/// place. Verus takes this on trust. Like vstd's contract for `Vec::push`, it
/// leaves aside a string that outgrows memory.
pub assume_specification[ std::string::String::push ](s: &mut std::string::String, ch: char)
    ensures
        final(s)@ == old(s)@.push(ch),
;

/// The characters of `s`, in order, in a buffer that can be indexed in
/// constant time.
pub fn chars_of(s: &str) -> (chars: Vec<char>)
    ensures
        chars@ == s@,
{
    let mut chars: Vec<char> = Vec::new();
    for c in it: s.chars()
        invariant
            chars@ == it.seq().take(it.index()),
    {
        chars.push(c);
    }
    chars
}

/// The characters `chars[from..to]` as a string.
pub fn substring(chars: &Vec<char>, from: usize, to: usize) -> (text: String)
    requires
        from <= to <= chars.len(),
    ensures
        text@ == chars@.subrange(from as int, to as int),
{
    let mut text = String::new();
    let mut i: usize = from;
    while i < to
        invariant
            from <= i <= to <= chars.len(),
            text@ == chars@.subrange(from as int, i as int),
        decreases to - i,
    {
        text.push(chars[i]);
        i += 1;
    }
    text
}

} // verus!
