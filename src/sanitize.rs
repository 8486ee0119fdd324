//! Turning arbitrary selector text into a safe host identifier.
use vstd::prelude::*;

use crate::text::{chars_of, string_from_chars};

verus! {

/// Letters, digits, dash and underscore: the characters that survive cleaning.
pub open spec fn is_ident_char(c: char) -> bool {
    ('a' <= c && c <= 'z') || ('A' <= c && c <= 'Z') || ('0' <= c && c <= '9') || c == '-'
        || c == '_'
}

pub open spec fn is_ascii_digit(c: char) -> bool {
    '0' <= c && c <= '9'
}

pub open spec fn is_ascii_letter(c: char) -> bool {
    ('a' <= c && c <= 'z') || ('A' <= c && c <= 'Z')
}

pub open spec fn upper(c: char) -> char {
    if 'a' <= c && c <= 'z' {
        ((c as u8) - 32) as u8 as char
    } else {
        c
    }
}

/// Whether the character at `i` survives cleaning: it is an identifier character,
/// and it is not a dash standing first or last.
pub open spec fn kept_at(s: Seq<char>, i: int) -> bool {
    is_ident_char(s[i]) && !(s[i] == '-' && (i == 0 || i == s.len() - 1))
}

/// The first `k` characters of `s` after cleaning.
pub open spec fn cleaned_prefix(s: Seq<char>, k: int) -> Seq<char>
    decreases k,
{
    if k <= 0 {
        Seq::empty()
    } else if kept_at(s, k - 1) {
        cleaned_prefix(s, k - 1).push(s[k - 1])
    } else {
        cleaned_prefix(s, k - 1)
    }
}

/// `s` without a leading or trailing dash and without any character that is not
/// an ASCII letter, digit, dash or underscore.
pub open spec fn cleaned(s: Seq<char>) -> Seq<char> {
    cleaned_prefix(s, s.len() as int)
}

/// Folding of the first `k` cleaned characters: the text so far, and whether the
/// next character is to be upper-cased.
pub open spec fn folded_prefix(c: Seq<char>, k: int) -> (Seq<char>, bool)
    decreases k,
{
    if k <= 0 {
        (Seq::empty(), false)
    } else {
        let (o, up) = folded_prefix(c, k - 1);
        let ch = c[k - 1];
        if ch == '-' {
            (o, true)
        } else if o.len() == 0 && is_ascii_digit(ch) {
            (o.push('n').push(ch), false)
        } else {
            (o.push(if up { upper(ch) } else { ch }), false)
        }
    }
}

/// Camel-case folding of cleaned text: every dash is dropped and upper-cases the
/// character after it; a digit that would open the result gets an `n` in front.
pub open spec fn folded(c: Seq<char>) -> Seq<char> {
    folded_prefix(c, c.len() as int).0
}

/// The host identifier made from selector text `s`.
pub open spec fn sanitized(s: Seq<char>) -> Seq<char> {
    folded(cleaned(s))
}

proof fn lemma_cleaned_prefix_chars(s: Seq<char>, k: int)
    requires
        0 <= k <= s.len(),
    ensures
        forall|i: int|
            0 <= i < cleaned_prefix(s, k).len() ==> is_ident_char(#[trigger] cleaned_prefix(s, k)[i]),
    decreases k,
{
    if k > 0 {
        lemma_cleaned_prefix_chars(s, k - 1);
        let prev = cleaned_prefix(s, k - 1);
        let cur = cleaned_prefix(s, k);
        assert forall|i: int| 0 <= i < cur.len() implies is_ident_char(#[trigger] cur[i]) by {
            if i < prev.len() {
                assert(cur[i] == prev[i]);
            }
        }
    }
}

proof fn lemma_upper_keeps_class(c: char)
    requires
        is_ident_char(c),
        c != '-',
    ensures
        is_ident_char(upper(c)),
        upper(c) != '-',
        is_ascii_letter(c) ==> is_ascii_letter(upper(c)),
        c == '_' ==> upper(c) == '_',
        is_ascii_digit(c) ==> upper(c) == c,
{
    if 'a' <= c && c <= 'z' {
        let b = c as u8;
        assert(97 <= b <= 122);
        assert(65 <= (b - 32) as u8 <= 90);
    }
}

proof fn lemma_folded_prefix(c: Seq<char>, k: int)
    requires
        0 <= k <= c.len(),
        forall|i: int| 0 <= i < c.len() ==> is_ident_char(#[trigger] c[i]),
    ensures
        ({
            let o = folded_prefix(c, k).0;
            &&& forall|i: int|
                0 <= i < o.len() ==> is_ident_char(#[trigger] o[i]) && o[i] != '-'
            &&& (o.len() == 0 <==> forall|i: int| 0 <= i < k ==> #[trigger] c[i] == '-')
            &&& (o.len() > 0 ==> is_ascii_letter(o[0]) || o[0] == '_')
        }),
    decreases k,
{
    if k > 0 {
        lemma_folded_prefix(c, k - 1);
        let o = folded_prefix(c, k - 1).0;
        let ch = c[k - 1];
        assert(is_ident_char(ch));
        if ch != '-' {
            lemma_upper_keeps_class(ch);
        }
        let o2 = folded_prefix(c, k).0;
        if o2.len() == 0 {
            assert forall|i: int| 0 <= i < k implies #[trigger] c[i] == '-' by {
                if i == k - 1 {
                    assert(o2.len() == o.len() || o2.len() > o.len());
                }
            }
        }
    }
}

/// Every identifier this module makes is built of ASCII letters, digits and
/// underscores, with no dash; it is empty exactly when cleaning leaves nothing but
/// dashes; and it starts with a letter (the `n` marker included) or an underscore.
pub proof fn lemma_sanitized_is_identifier(s: Seq<char>)
    ensures
        forall|i: int|
            0 <= i < sanitized(s).len() ==> is_ident_char(#[trigger] sanitized(s)[i])
                && sanitized(s)[i] != '-',
        sanitized(s).len() == 0 <==> forall|i: int|
            0 <= i < cleaned(s).len() ==> #[trigger] cleaned(s)[i] == '-',
        sanitized(s).len() > 0 ==> is_ascii_letter(sanitized(s)[0]) || sanitized(s)[0] == '_',
{
    lemma_cleaned_prefix_chars(s, s.len() as int);
    lemma_folded_prefix(cleaned(s), cleaned(s).len() as int);
}

proof fn lemma_cleaned_keeps_identifier(o: Seq<char>, k: int)
    requires
        0 <= k <= o.len(),
        forall|i: int| 0 <= i < o.len() ==> is_ident_char(#[trigger] o[i]) && o[i] != '-',
    ensures
        cleaned_prefix(o, k) == o.subrange(0, k),
    decreases k,
{
    if k > 0 {
        lemma_cleaned_keeps_identifier(o, k - 1);
        assert(o.subrange(0, k) =~= o.subrange(0, k - 1).push(o[k - 1]));
    } else {
        assert(o.subrange(0, 0) =~= Seq::<char>::empty());
    }
}

proof fn lemma_folded_keeps_identifier(o: Seq<char>, k: int)
    requires
        0 <= k <= o.len(),
        forall|i: int| 0 <= i < o.len() ==> is_ident_char(#[trigger] o[i]) && o[i] != '-',
        o.len() > 0 ==> !is_ascii_digit(o[0]),
    ensures
        folded_prefix(o, k) == (o.subrange(0, k), false),
    decreases k,
{
    if k > 0 {
        lemma_folded_keeps_identifier(o, k - 1);
        assert(o.subrange(0, k) =~= o.subrange(0, k - 1).push(o[k - 1]));
    } else {
        assert(o.subrange(0, 0) =~= Seq::<char>::empty());
    }
}

/// Sanitizing is idempotent: an identifier this module made comes back unchanged.
pub proof fn lemma_sanitize_idempotent(s: Seq<char>)
    ensures
        sanitized(sanitized(s)) == sanitized(s),
{
    lemma_sanitized_is_identifier(s);
    let o = sanitized(s);
    lemma_cleaned_keeps_identifier(o, o.len() as int);
    assert(o.subrange(0, o.len() as int) =~= o);
    lemma_folded_keeps_identifier(o, o.len() as int);
}

proof fn lemma_cleaned_prefix_len(s: Seq<char>, k: int)
    requires
        0 <= k <= s.len(),
    ensures
        cleaned_prefix(s, k).len() <= k,
    decreases k,
{
    if k > 0 {
        lemma_cleaned_prefix_len(s, k - 1);
    }
}

proof fn lemma_folded_prefix_len(c: Seq<char>, k: int)
    requires
        0 <= k <= c.len(),
    ensures
        folded_prefix(c, k).0.len() <= k + 1,
        k == 0 ==> folded_prefix(c, k).0.len() == 0,
    decreases k,
{
    if k > 0 {
        lemma_folded_prefix_len(c, k - 1);
    }
}

/// Sanitizing adds at most one character (the `n` marker).
pub proof fn lemma_sanitized_len(s: Seq<char>)
    ensures
        sanitized(s).len() <= s.len() + 1,
        s.len() == 0 ==> sanitized(s).len() == 0,
{
    lemma_cleaned_prefix_len(s, s.len() as int);
    lemma_folded_prefix_len(cleaned(s), cleaned(s).len() as int);
}

fn is_ident_char_exec(c: char) -> (r: bool)
    ensures
        r == is_ident_char(c),
{
    ('a' <= c && c <= 'z') || ('A' <= c && c <= 'Z') || ('0' <= c && c <= '9') || c == '-'
        || c == '_'
}

fn upper_exec(c: char) -> (r: char)
    ensures
        r == upper(c),
{
    if 'a' <= c && c <= 'z' {
        ((c as u8) - 32) as u8 as char
    } else {
        c
    }
}

/// Drops a leading or trailing dash and every character that is not an ASCII
/// letter, digit, dash or underscore.
pub fn clean(s: &Vec<char>) -> (r: Vec<char>)
    ensures
        r@ == cleaned(s@),
{
    let n = s.len();
    let mut out: Vec<char> = Vec::new();
    let mut i: usize = 0;
    while i < n
        invariant
            n == s@.len(),
            i <= n,
            out@ == cleaned_prefix(s@, i as int),
        decreases n - i,
    {
        let c = s[i];
        let keep = is_ident_char_exec(c) && !(c == '-' && (i == 0 || i == n - 1));
        if keep {
            out.push(c);
        }
        i = i + 1;
    }
    out
}

/// Camel-case folding of cleaned characters.
pub fn fold(c: &Vec<char>) -> (r: Vec<char>)
    ensures
        r@ == folded(c@),
{
    let n = c.len();
    let mut out: Vec<char> = Vec::new();
    let mut next_upper = false;
    let mut i: usize = 0;
    while i < n
        invariant
            n == c@.len(),
            i <= n,
            (out@, next_upper) == folded_prefix(c@, i as int),
        decreases n - i,
    {
        let ch = c[i];
        if ch == '-' {
            next_upper = true;
        } else if out.len() == 0 && '0' <= ch && ch <= '9' {
            out.push('n');
            out.push(ch);
            next_upper = false;
        } else {
            if next_upper {
                out.push(upper_exec(ch));
            } else {
                out.push(ch);
            }
            next_upper = false;
        }
        i = i + 1;
    }
    out
}

/// Turns arbitrary selector text into a safe host identifier: a leading or trailing
/// dash and every character outside ASCII letters, digits, dash and underscore are
/// dropped; every other dash is dropped and upper-cases the character that follows
/// it; a digit that would open the identifier gets an `n` in front. Never fails; text made only of dropped
/// characters gives the empty string.
pub fn apply_basic_rusty_member_gen_rules(source: &str) -> (r: String)
    ensures
        r@ == sanitized(source@),
{
    let chars = chars_of(source);
    let cleaned_chars = clean(&chars);
    let out = fold(&cleaned_chars);
    string_from_chars(&out)
}

} // verus!
