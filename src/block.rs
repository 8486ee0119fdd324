//! Style code written inside host source: the indentation that the host code adds
//! to every line is taken off.
use vstd::prelude::*;

use crate::text::{chars_of, string_from_chars};

verus! {

/// Whether a character has Unicode's `White_Space` property, as `char::is_whitespace`
/// tells it: tab to carriage return, space, next line, no-break space, ogham space
/// mark, the spaces from en quad to hair space, line and paragraph separators, narrow
/// no-break space, medium mathematical space and ideographic space.
pub open spec fn unicode_white_space(c: char) -> bool {
    let u = c as u32;
    (9 <= u && u <= 13) || u == 32 || u == 0x85 || u == 0xA0 || u == 0x1680 || (0x2000 <= u
        && u <= 0x200A) || u == 0x2028 || u == 0x2029 || u == 0x202F || u == 0x205F || u == 0x3000
}

fn is_white(c: char) -> (r: bool)
    ensures
        r == unicode_white_space(c),
{
    let u = c as u32;
    (9 <= u && u <= 13) || u == 32 || u == 0x85 || u == 0xA0 || u == 0x1680 || (0x2000 <= u
        && u <= 0x200A) || u == 0x2028 || u == 0x2029 || u == 0x202F || u == 0x205F || u == 0x3000
}

/// Whether a newline followed by four white-space characters starts at `i`.
pub open spec fn indent_at(s: Seq<char>, i: int) -> bool {
    &&& i + 5 <= s.len()
    &&& s[i] == '\n'
    &&& forall|k: int| i + 1 <= k < i + 5 ==> unicode_white_space(#[trigger] s[k])
}

/// `s` from position `i` on, with every newline followed by four white-space
/// characters replaced by the newline alone, scanning left to right.
pub open spec fn dedented_from(s: Seq<char>, i: int) -> Seq<char>
    decreases s.len() - i,
{
    if i >= s.len() || i < 0 {
        Seq::empty()
    } else if indent_at(s, i) {
        seq!['\n'] + dedented_from(s, i + 5)
    } else {
        seq![s[i]] + dedented_from(s, i + 1)
    }
}

/// Takes four characters of indentation off every line but the first: each newline
/// followed by four white-space characters becomes the newline alone.
pub fn dedent(code: &str) -> (r: String)
    ensures
        r@ == dedented_from(code@, 0),
{
    let s = chars_of(code);
    let n = s.len();
    let mut out: Vec<char> = Vec::new();
    let mut i: usize = 0;
    while i < n
        invariant
            n == s@.len(),
            s@ == code@,
            i <= n,
            out@ + dedented_from(s@, i as int) == dedented_from(s@, 0),
        decreases n - i,
    {
        let mut indent = s[i] == '\n' && n - i >= 5;
        let mut k: usize = i + 1;
        while indent && k < i + 5
            invariant
                n == s@.len(),
                i < n,
                indent ==> i + 5 <= n && s@[i as int] == '\n',
                i + 1 <= k <= i + 5,
                indent ==> forall|j: int| i + 1 <= j < k ==> unicode_white_space(#[trigger] s@[j]),
                !indent ==> !indent_at(s@, i as int),
            decreases i + 5 - k,
        {
            if !is_white(s[k]) {
                indent = false;
            }
            k = k + 1;
        }
        let ghost before = out@;
        if indent {
            assert(indent_at(s@, i as int));
            out.push('\n');
            i = i + 5;
        } else {
            out.push(s[i]);
            i = i + 1;
        }
        assert(out@ + dedented_from(s@, i as int) =~= before + dedented_from(s@, (if indent { i - 5 } else { i - 1 }) as int));
    }
    assert(out@ =~= out@ + dedented_from(s@, i as int));
    string_from_chars(&out)
}

} // verus!
