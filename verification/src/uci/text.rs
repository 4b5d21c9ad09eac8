use vstd::prelude::*;

verus! {

/// Returns the characters of `s`, in order.
pub fn chars_of(s: &str) -> (chars: Vec<char>)
    ensures
        chars@ == s@,
{
    let mut out: Vec<char> = Vec::new();
    for c in it: s.chars()
        invariant
            out@ == it.seq().subrange(0, it.index() as int),
    {
        out.push(c);
    }
    assert(out@ =~= s@);
    out
}

/// Appends the characters of `s` to `out`.
pub fn append_str(out: &mut Vec<char>, s: &str)
    ensures
        final(out)@ == old(out)@ + s@,
{
    let chars = chars_of(s);
    append_chars(out, &chars);
}

/// Appends `chars` to `out`.
pub fn append_chars(out: &mut Vec<char>, chars: &[char])
    ensures
        final(out)@ == old(out)@ + chars@,
{
    let ghost start = out@;
    let mut i: usize = 0;
    while i < chars.len()
        invariant
            i <= chars@.len(),
            out@ == start + chars@.subrange(0, i as int),
        decreases chars@.len() - i,
    {
        out.push(chars[i]);
        i = i + 1;
        assert(out@ =~= start + chars@.subrange(0, i as int));
    }
    assert(chars@.subrange(0, i as int) =~= chars@);
}

/// `String::push`, which appends one character.
#[verifier::external_body]
fn push_char(s: &mut String, c: char)
    ensures
        final(s)@ == old(s)@.push(c),
{
    s.push(c);
}

/// Returns a string holding `chars`, in order.
pub fn string_of(chars: &[char]) -> (s: String)
    ensures
        s@ == chars@,
{
    let mut s = String::new();
    let mut i: usize = 0;
    while i < chars.len()
        invariant
            i <= chars@.len(),
            s@ == chars@.subrange(0, i as int),
        decreases chars@.len() - i,
    {
        push_char(&mut s, chars[i]);
        i = i + 1;
        assert(s@ =~= chars@.subrange(0, i as int));
    }
    assert(chars@.subrange(0, i as int) =~= chars@);
    s
}

/// The characters with the Unicode `White_Space` property.
pub open spec fn is_space(c: char) -> bool {
    ||| '\u{9}' <= c <= '\u{d}'
    ||| c == ' '
    ||| c == '\u{85}'
    ||| c == '\u{a0}'
    ||| c == '\u{1680}'
    ||| '\u{2000}' <= c <= '\u{200a}'
    ||| c == '\u{2028}'
    ||| c == '\u{2029}'
    ||| c == '\u{202f}'
    ||| c == '\u{205f}'
    ||| c == '\u{3000}'
}

/// Returns whether `c` is white space, as `char::is_whitespace` defines it.
pub fn is_whitespace(c: char) -> (space: bool)
    ensures
        space == is_space(c),
{
    ('\u{9}' <= c && c <= '\u{d}') || c == ' ' || c == '\u{85}' || c == '\u{a0}' || c == '\u{1680}'
        || ('\u{2000}' <= c && c <= '\u{200a}') || c == '\u{2028}' || c == '\u{2029}' || c
        == '\u{202f}' || c == '\u{205f}' || c == '\u{3000}'
}

/// The maximal runs of non-space characters of `s`, in order: what
/// `str::split_whitespace` yields.
pub open spec fn split_ws(s: Seq<char>) -> Seq<Seq<char>>
    decreases s.len(),
{
    if s.len() == 0 {
        Seq::empty()
    } else {
        let rest = split_ws(s.drop_last());
        if is_space(s.last()) {
            rest
        } else if s.len() > 1 && !is_space(s.drop_last().last()) {
            rest.update(rest.len() - 1, rest.last().push(s.last()))
        } else {
            rest.push(seq![s.last()])
        }
    }
}

/// The views of a sequence of character vectors.
pub open spec fn views(v: Seq<Vec<char>>) -> Seq<Seq<char>> {
    v.map_values(|t: Vec<char>| t@)
}

/// Splits `s` into its maximal runs of non-space characters.
pub fn split_whitespace(s: &[char]) -> (tokens: Vec<Vec<char>>)
    ensures
        views(tokens@) == split_ws(s@),
{
    let mut tokens: Vec<Vec<char>> = Vec::new();
    let mut current: Vec<char> = Vec::new();
    let mut i: usize = 0;
    while i < s.len()
        invariant
            i <= s@.len(),
            current@.len() > 0 ==> i > 0 && !is_space(s@[i - 1]),
            i > 0 && !is_space(s@[i - 1]) ==> current@.len() > 0,
            current@.len() > 0 ==> split_ws(s@.subrange(0, i as int)) == views(tokens@).push(
                current@,
            ),
            current@.len() == 0 ==> split_ws(s@.subrange(0, i as int)) == views(tokens@),
        decreases s@.len() - i,
    {
        let c = s[i];
        let ghost prefix = s@.subrange(0, i as int);
        let ghost next = s@.subrange(0, i as int + 1);
        assert(next.drop_last() =~= prefix);
        if is_whitespace(c) {
            if current.len() > 0 {
                let mut token: Vec<char> = Vec::new();
                std::mem::swap(&mut token, &mut current);
                tokens.push(token);
                assert(views(tokens@) =~= split_ws(prefix));
            }
        } else {
            if current.len() > 0 {
                proof {
                    assert(split_ws(next) =~= split_ws(prefix).update(
                        split_ws(prefix).len() - 1,
                        split_ws(prefix).last().push(c),
                    ));
                }
                current.push(c);
                assert(split_ws(next) =~= views(tokens@).push(current@));
            } else {
                current.push(c);
                assert(current@ =~= seq![c]);
                assert(split_ws(next) =~= views(tokens@).push(current@));
            }
        }
        i = i + 1;
    }
    assert(s@.subrange(0, i as int) =~= s@);
    if current.len() > 0 {
        tokens.push(current);
        assert(views(tokens@) =~= split_ws(s@));
    }
    tokens
}

/// Returns whether `token` spells exactly `word`.
pub fn eq_word(token: &[char], word: &str) -> (equal: bool)
    ensures
        equal == (token@ == word@),
{
    let word_chars = chars_of(word);
    if token.len() != word_chars.len() {
        return false;
    }
    let mut i: usize = 0;
    while i < token.len()
        invariant
            i <= token@.len(),
            token@.len() == word_chars@.len(),
            word_chars@ == word@,
            token@.subrange(0, i as int) == word_chars@.subrange(0, i as int),
        decreases token@.len() - i,
    {
        if token[i] != word_chars[i] {
            assert(token@[i as int] != word@[i as int]);
            return false;
        }
        i = i + 1;
        assert(token@.subrange(0, i as int) =~= word_chars@.subrange(0, i as int));
    }
    assert(token@ =~= token@.subrange(0, i as int));
    assert(word_chars@ =~= word_chars@.subrange(0, i as int));
    true
}

/// `c` with ASCII upper-case letters mapped to lower case.
pub open spec fn lower_char(c: char) -> char {
    if 'A' <= c <= 'Z' {
        ((c as u32) + 32) as char
    } else {
        c
    }
}

/// `s` with ASCII upper-case letters mapped to lower case.
pub open spec fn lower(s: Seq<char>) -> Seq<char> {
    s.map_values(|c: char| lower_char(c))
}

/// Returns `c` with an ASCII upper-case letter mapped to lower case.
pub fn to_ascii_lowercase(c: char) -> (lowered: char)
    ensures
        lowered == lower_char(c),
{
    if 'A' <= c && c <= 'Z' {
        let code = (c as u32) + 32;
        assert(0x61 <= code <= 0x7a);
        char_from_ascii(code as u8)
    } else {
        c
    }
}

pub(crate) fn char_from_ascii(b: u8) -> (c: char)
    requires
        b < 128,
    ensures
        c == b as char,
        c as u32 == b as u32,
{
    b as char
}

/// Returns `s` with ASCII upper-case letters mapped to lower case.
pub fn lowercase(s: &[char]) -> (lowered: Vec<char>)
    ensures
        lowered@ == lower(s@),
{
    let mut out: Vec<char> = Vec::new();
    let mut i: usize = 0;
    while i < s.len()
        invariant
            i <= s@.len(),
            out@ == lower(s@.subrange(0, i as int)),
        decreases s@.len() - i,
    {
        out.push(to_ascii_lowercase(s[i]));
        i = i + 1;
        assert(out@ =~= lower(s@.subrange(0, i as int)));
    }
    assert(s@.subrange(0, i as int) =~= s@);
    out
}

/// `parts` joined with a single space between consecutive parts.
pub open spec fn join_spaced(parts: Seq<Seq<char>>) -> Seq<char>
    decreases parts.len(),
{
    if parts.len() == 0 {
        Seq::empty()
    } else if parts.len() == 1 {
        parts[0]
    } else {
        join_spaced(parts.drop_last()) + seq![' '] + parts.last()
    }
}

/// Returns `parts` joined with a single space between consecutive parts.
pub fn join_with_spaces(parts: &[Vec<char>]) -> (joined: Vec<char>)
    ensures
        joined@ == join_spaced(views(parts@)),
{
    let mut out: Vec<char> = Vec::new();
    let mut i: usize = 0;
    while i < parts.len()
        invariant
            i <= parts@.len(),
            out@ == join_spaced(views(parts@.subrange(0, i as int))),
        decreases parts@.len() - i,
    {
        let ghost before = out@;
        if i > 0 {
            out.push(' ');
        }
        let part = &parts[i];
        let mut j: usize = 0;
        let ghost base = out@;
        while j < part.len()
            invariant
                j <= part@.len(),
                out@ == base + part@.subrange(0, j as int),
            decreases part@.len() - j,
        {
            out.push(part[j]);
            j = j + 1;
            assert(out@ =~= base + part@.subrange(0, j as int));
        }
        assert(part@.subrange(0, j as int) =~= part@);
        proof {
            let next = views(parts@.subrange(0, i as int + 1));
            assert(next.drop_last() =~= views(parts@.subrange(0, i as int)));
            assert(next.last() == part@);
            if i > 0 {
                assert(out@ =~= join_spaced(next.drop_last()) + seq![' '] + next.last());
            } else {
                assert(out@ =~= next[0]);
            }
        }
        i = i + 1;
    }
    assert(parts@.subrange(0, i as int) =~= parts@);
    out
}

} // verus!
