//! Character-level editing of a line of text: append, backspace, and the
//! editor's word-delete rule.

use vstd::prelude::*;

verus! {

/// The word-delete rule: drop the last character; if it was a space, stop
/// there, otherwise keep dropping characters until a space is dropped or the
/// text is empty. The rule always deletes at least the character directly
/// before the cursor.
pub open spec fn word_delete_spec(t: Seq<char>) -> Seq<char>
    decreases t.len(),
{
    if t.len() == 0 {
        t
    } else if t.last() == ' ' {
        t.drop_last()
    } else {
        word_delete_spec(t.drop_last())
    }
}

/// Relies on `String::push`: appends the character to the end of the string.
#[verifier::external_body]
pub(crate) fn push_char(s: &mut String, c: char)
    ensures
        final(s)@ == old(s)@.push(c),
{
    s.push(c)
}

/// Relies on `String::pop`: removes and returns the last character of the
/// string, or returns `None` and leaves it unchanged when it is empty.
#[verifier::external_body]
pub(crate) fn pop_char(s: &mut String) -> (r: Option<char>)
    ensures
        old(s)@.len() == 0 ==> r is None && final(s)@ == old(s)@,
        old(s)@.len() > 0 ==> r == Some(old(s)@.last()) && final(s)@ == old(s)@.drop_last(),
{
    s.pop()
}

/// Applies the word-delete rule to the text in place.
pub fn word_delete(t: &mut String)
    ensures
        final(t)@ == word_delete_spec(old(t)@),
{
    loop
        invariant_except_break
            word_delete_spec(t@) == word_delete_spec(old(t)@),
        ensures
            t@ == word_delete_spec(old(t)@),
        decreases t@.len(),
    {
        let popped = pop_char(t);
        match popped {
            None => {
                break;
            },
            Some(c) => {
                if c == ' ' {
                    break;
                }
            },
        }
    }
}

} // verus!
