//! Whitespace normalization of request text.
//!
//! Before segmentation, the input text is normalized once per request:
//! leading and trailing whitespace is trimmed and every internal run of
//! whitespace (newlines included) collapses to a single space.

use vstd::prelude::*;

verus! {

/// Whether `c` is a whitespace character: the Unicode `White_Space` set,
/// the same set `char::is_whitespace` recognizes.
pub open spec fn is_ws(c: char) -> bool {
    ||| c == ' '
    ||| c == '\t'
    ||| c == '\n'
    ||| c == '\u{B}'
    ||| c == '\u{C}'
    ||| c == '\r'
    ||| c == '\u{85}'
    ||| c == '\u{A0}'
    ||| c == '\u{1680}'
    ||| c == '\u{2000}'
    ||| c == '\u{2001}'
    ||| c == '\u{2002}'
    ||| c == '\u{2003}'
    ||| c == '\u{2004}'
    ||| c == '\u{2005}'
    ||| c == '\u{2006}'
    ||| c == '\u{2007}'
    ||| c == '\u{2008}'
    ||| c == '\u{2009}'
    ||| c == '\u{200A}'
    ||| c == '\u{2028}'
    ||| c == '\u{2029}'
    ||| c == '\u{202F}'
    ||| c == '\u{205F}'
    ||| c == '\u{3000}'
}

/// Whether every character of `s` is whitespace.
pub open spec fn all_ws(s: Seq<char>) -> bool {
    forall|i: int| 0 <= i < s.len() ==> is_ws(#[trigger] s[i])
}

/// The character sequences of a list of strings, in order.
pub open spec fn texts_of(v: Seq<String>) -> Seq<Seq<char>> {
    v.map(|i: int, s: String| s@)
}

/// Executable whitespace test, equivalent to `is_ws`.
pub fn is_whitespace(c: char) -> (r: bool)
    ensures
        r == is_ws(c),
{
    c == ' ' || c == '\t' || c == '\n' || c == '\u{B}' || c == '\u{C}' || c == '\r' || c == '\u{85}'
        || c == '\u{A0}' || c == '\u{1680}' || c == '\u{2000}' || c == '\u{2001}' || c == '\u{2002}'
        || c == '\u{2003}' || c == '\u{2004}' || c == '\u{2005}' || c == '\u{2006}' || c == '\u{2007}'
        || c == '\u{2008}' || c == '\u{2009}' || c == '\u{200A}' || c == '\u{2028}' || c == '\u{2029}'
        || c == '\u{202F}' || c == '\u{205F}' || c == '\u{3000}'
}

/// One step of normalization: fold `c` onto the already-normalized prefix `acc`.
/// A whitespace character turns into a single space, and only when the prefix
/// is nonempty and does not already end in that collapse space; any other
/// character is kept as it is.
pub open spec fn norm_step(acc: Seq<char>, c: char) -> Seq<char> {
    if is_ws(c) {
        if acc.len() == 0 || acc.last() == ' ' {
            acc
        } else {
            acc.push(' ')
        }
    } else {
        acc.push(c)
    }
}

/// Normalization of all of `s` except the possible single trailing space.
pub open spec fn norm_seq(s: Seq<char>) -> Seq<char>
    decreases s.len(),
{
    if s.len() == 0 {
        Seq::empty()
    } else {
        norm_step(norm_seq(s.drop_last()), s.last())
    }
}

/// The normalized form of `s`: whitespace runs collapsed to single spaces,
/// with no leading or trailing whitespace left.
pub open spec fn normalize_spec(s: Seq<char>) -> Seq<char> {
    let t = norm_seq(s);
    if t.len() > 0 && t.last() == ' ' {
        t.drop_last()
    } else {
        t
    }
}

/// Relies on `String`'s `FromIterator<char>` implementation: collecting
/// characters yields the string of exactly those characters in order.
#[verifier::external_body]
fn string_from_chars(v: &Vec<char>) -> (r: String)
    ensures
        r@ == v@,
{
    v.iter().collect()
}

/// Trim leading and trailing whitespace from `text` and collapse every
/// internal whitespace run to a single space.
pub fn normalize(text: &str) -> (r: String)
    ensures
        r@ == normalize_spec(text@),
{
    let mut out: Vec<char> = Vec::new();
    for c in it: text.chars()
        invariant
            it.seq() == text@,
            out@ == norm_seq(text@.take(it.index() as int)),
    {
        proof {
            let i = it.index() as int;
            assert(text@.take(i + 1).drop_last() =~= text@.take(i));
            assert(text@.take(i + 1).last() == text@[i]);
        }
        if is_whitespace(c) {
            if out.len() > 0 {
                let last = out[out.len() - 1];
                if last != ' ' {
                    out.push(' ');
                }
            }
        } else {
            out.push(c);
        }
    }
    proof {
        assert(text@.take(text@.len() as int) =~= text@);
    }
    if out.len() > 0 && out[out.len() - 1] == ' ' {
        out.pop();
        proof {
            assert(out@ =~= norm_seq(text@).drop_last());
        }
    }
    string_from_chars(&out)
}

} // verus!
