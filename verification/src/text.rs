//! Text primitives of the request grammar: white space, trimming, and the
//! splitting of a decoded request into lines, tokens and header fields.
//!
//! Every function is specified over the sequence of characters of its input.

use vstd::prelude::*;

verus! {

/// Whether `c` has the Unicode `White_Space` property.
pub open spec fn is_white_space(c: char) -> bool {
    let v = c as u32;
    ||| 0x09 <= v <= 0x0D
    ||| v == 0x20
    ||| v == 0x85
    ||| v == 0xA0
    ||| v == 0x1680
    ||| 0x2000 <= v <= 0x200A
    ||| v == 0x2028
    ||| v == 0x2029
    ||| v == 0x202F
    ||| v == 0x205F
    ||| v == 0x3000
}

/// Number of white-space characters at the end of `s`.
pub open spec fn trailing_white_space(s: Seq<char>) -> nat
    decreases s.len(),
{
    if s.len() > 0 && is_white_space(s.last()) {
        1 + trailing_white_space(s.drop_last())
    } else {
        0
    }
}

/// `s` without the white space at its end.
pub open spec fn trimmed_end(s: Seq<char>) -> Seq<char> {
    s.take(s.len() - trailing_white_space(s))
}

/// Number of white-space characters at the start of `s`.
pub open spec fn leading_white_space(s: Seq<char>) -> nat
    decreases s.len(),
{
    if s.len() > 0 && is_white_space(s[0]) {
        1 + leading_white_space(s.skip(1))
    } else {
        0
    }
}

/// Number of characters at the start of `s` that are not white space.
pub open spec fn leading_token(s: Seq<char>) -> nat
    decreases s.len(),
{
    if s.len() > 0 && !is_white_space(s[0]) {
        1 + leading_token(s.skip(1))
    } else {
        0
    }
}

/// Least index at which the two characters `a`, `b` occur side by side in
/// `s`, or the length of `s` when they never do.
pub open spec fn first_pair(s: Seq<char>, a: char, b: char) -> nat
    decreases s.len(),
{
    if s.len() < 2 {
        s.len()
    } else if s[0] == a && s[1] == b {
        0
    } else {
        1 + first_pair(s.skip(1), a, b)
    }
}

/// The pieces of `s` between its occurrences of the pair `a`, `b`, taken
/// from left to right. There is always at least one piece.
pub open spec fn split_pair(s: Seq<char>, a: char, b: char) -> Seq<Seq<char>>
    decreases s.len(),
{
    let i = first_pair(s, a, b) as int;
    if i + 2 <= s.len() {
        seq![s.take(i)] + split_pair(s.skip(i + 2), a, b)
    } else {
        seq![s]
    }
}

/// The lines of `s`: its pieces between carriage return, line feed pairs.
pub open spec fn split_crlf(s: Seq<char>) -> Seq<Seq<char>> {
    split_pair(s, '\r', '\n')
}

/// The maximal runs of characters of `s` that hold no white space, from left
/// to right.
pub open spec fn split_white_space(s: Seq<char>) -> Seq<Seq<char>>
    decreases s.len(),
{
    let a = leading_white_space(s) as int;
    let b = leading_token(s.skip(a)) as int;
    if 0 < b && a + b <= s.len() {
        seq![s.subrange(a, a + b)] + split_white_space(s.skip(a + b))
    } else {
        seq![]
    }
}

/// A header line parted at its first colon, space pair into name and value;
/// `None` for a line that holds no such pair.
pub open spec fn split_header(s: Seq<char>) -> Option<(Seq<char>, Seq<char>)> {
    let i = first_pair(s, ':', ' ') as int;
    if i + 2 <= s.len() {
        Some((s.take(i), s.skip(i + 2)))
    } else {
        None
    }
}

/// `pieces` with the pair `a`, `b` between each two.
pub open spec fn joined(pieces: Seq<Seq<char>>, a: char, b: char) -> Seq<char>
    decreases pieces.len(),
{
    if pieces.len() == 0 {
        seq![]
    } else if pieces.len() == 1 {
        pieces[0]
    } else {
        pieces[0] + seq![a, b] + joined(pieces.skip(1), a, b)
    }
}

/// Whether the pair `a`, `b` occurs nowhere in `s`.
pub open spec fn free_of_pair(s: Seq<char>, a: char, b: char) -> bool {
    forall|i: int| 0 <= i && i + 1 < s.len() ==> !(#[trigger] s[i] == a && s[i + 1] == b)
}

/// Whether `s` is a token: not empty and without white space.
pub open spec fn is_token(s: Seq<char>) -> bool {
    s.len() > 0 && forall|i: int| 0 <= i < s.len() ==> !is_white_space(#[trigger] s[i])
}

/// Trimming cuts white space only, and as much of it as stands at the end:
/// what is left is a prefix that does not end in white space.
pub proof fn lemma_trimmed_end(s: Seq<char>)
    ensures
        trailing_white_space(s) <= s.len(),
        trimmed_end(s) == s.take(trimmed_end(s).len() as int),
        forall|i: int| trimmed_end(s).len() <= i < s.len() ==> is_white_space(#[trigger] s[i]),
        trimmed_end(s).len() > 0 ==> !is_white_space(trimmed_end(s).last()),
    decreases s.len(),
{
    if s.len() > 0 && is_white_space(s.last()) {
        let t = s.drop_last();
        lemma_trimmed_end(t);
        assert(trimmed_end(s) == trimmed_end(t));
        assert forall|i: int| trimmed_end(s).len() <= i < s.len() implies is_white_space(
            #[trigger] s[i],
        ) by {
            if i < t.len() {
                assert(s[i] == t[i]);
            }
        }
    } else {
        assert(s.take(s.len() as int) == s);
    }
}

/// What `leading_token` counts: characters that are not white space, up to
/// the first that is.
pub proof fn lemma_leading_token(s: Seq<char>)
    ensures
        leading_token(s) <= s.len(),
        leading_token(s) < s.len() ==> is_white_space(s[leading_token(s) as int]),
        forall|i: int| 0 <= i < leading_token(s) ==> !is_white_space(#[trigger] s[i]),
    decreases s.len(),
{
    if s.len() > 0 && !is_white_space(s[0]) {
        lemma_leading_token(s.skip(1));
        assert forall|i: int| 0 <= i < leading_token(s) implies !is_white_space(
            #[trigger] s[i],
        ) by {
            if i > 0 {
                assert(s[i] == s.skip(1)[i - 1]);
            }
        }
    }
}

/// Every piece that `split_white_space` gives is a token.
pub proof fn lemma_split_white_space_gives_tokens(s: Seq<char>)
    ensures
        forall|k: int|
            0 <= k < split_white_space(s).len() ==> is_token(#[trigger] split_white_space(s)[k]),
    decreases s.len(),
{
    let a = leading_white_space(s) as int;
    let b = leading_token(s.skip(a)) as int;
    if 0 < b && a + b <= s.len() {
        let first = s.subrange(a, a + b);
        let rest = split_white_space(s.skip(a + b));
        lemma_leading_token(s.skip(a));
        lemma_split_white_space_gives_tokens(s.skip(a + b));
        assert forall|i: int| 0 <= i < first.len() implies !is_white_space(
            #[trigger] first[i],
        ) by {
            assert(first[i] == s.skip(a)[i]);
        }
        assert forall|k: int| 0 <= k < split_white_space(s).len() implies is_token(
            #[trigger] split_white_space(s)[k],
        ) by {
            if k > 0 {
                assert(split_white_space(s)[k] == rest[k - 1]);
            }
        }
    }
}

/// What `first_pair` finds: the first place where the pair stands, and no
/// place before it.
pub proof fn lemma_first_pair_bound(s: Seq<char>, a: char, b: char)
    ensures
        first_pair(s, a, b) <= s.len(),
        first_pair(s, a, b) + 2 <= s.len() ==> {
            let i = first_pair(s, a, b) as int;
            s[i] == a && s[i + 1] == b
        },
        first_pair(s, a, b) + 2 > s.len() ==> first_pair(s, a, b) == s.len(),
        forall|i: int|
            0 <= i < first_pair(s, a, b) && i + 1 < s.len() ==> !(#[trigger] s[i] == a && s[i + 1]
                == b),
    decreases s.len(),
{
    if s.len() >= 2 && !(s[0] == a && s[1] == b) {
        let t = s.skip(1);
        lemma_first_pair_bound(t, a, b);
        assert forall|i: int| 0 <= i < first_pair(s, a, b) && i + 1 < s.len() implies !(
        #[trigger] s[i] == a && s[i + 1] == b) by {
            if i > 0 {
                assert(s[i] == t[i - 1]);
                assert(s[i + 1] == t[i]);
            }
        }
    }
}

/// Splitting loses nothing and cuts at every pair: the pieces, joined by the
/// pair, give the text back, and no piece holds the pair.
pub proof fn lemma_split_pair(s: Seq<char>, a: char, b: char)
    ensures
        split_pair(s, a, b).len() >= 1,
        joined(split_pair(s, a, b), a, b) == s,
        forall|k: int|
            0 <= k < split_pair(s, a, b).len() ==> free_of_pair(
                #[trigger] split_pair(s, a, b)[k],
                a,
                b,
            ),
    decreases s.len(),
{
    let i = first_pair(s, a, b) as int;
    lemma_first_pair_bound(s, a, b);
    let pieces = split_pair(s, a, b);
    if i + 2 <= s.len() {
        let rest = split_pair(s.skip(i + 2), a, b);
        lemma_split_pair(s.skip(i + 2), a, b);
        assert(pieces.skip(1) == rest);
        assert(s.take(i) + seq![a, b] + s.skip(i + 2) == s);
        assert forall|k: int| 0 <= k < pieces.len() implies free_of_pair(
            #[trigger] pieces[k],
            a,
            b,
        ) by {
            if k > 0 {
                assert(pieces[k] == rest[k - 1]);
            } else {
                assert(pieces[0] == s.take(i));
                assert forall|j: int| 0 <= j && j + 1 < pieces[0].len() implies !(
                #[trigger] pieces[0][j] == a && pieces[0][j + 1] == b) by {
                    assert(pieces[0][j] == s[j]);
                    assert(pieces[0][j + 1] == s[j + 1]);
                }
            }
        }
    } else {
        assert(pieces[0] == s);
    }
}

/// Tells whether `c` is a white-space character.
pub fn is_whitespace(c: char) -> (r: bool)
    ensures
        r == is_white_space(c),
{
    let v: u32 = c as u32;
    (0x09 <= v && v <= 0x0D) || v == 0x20 || v == 0x85 || v == 0xA0 || v == 0x1680 || (0x2000 <= v
        && v <= 0x200A) || v == 0x2028 || v == 0x2029 || v == 0x202F || v == 0x205F || v == 0x3000
}

/// The characters of `s`, in order.
pub fn to_chars(s: &str) -> (chars: Vec<char>)
    ensures
        chars@ == s@,
{
    let mut chars: Vec<char> = Vec::new();
    for c in it: s.chars()
        invariant
            chars@ == it.seq().take(it.index() as int),
    {
        chars.push(c);
    }
    chars
}

/// The characters of `s` from index `from` up to `to`, as a string.
fn piece(s: &str, from: usize, to: usize) -> (r: String)
    requires
        from <= to <= s@.len(),
    ensures
        r@ == s@.subrange(from as int, to as int),
{
    s.substring_char(from, to).to_owned()
}

/// Index of the first place at or after `from` where `a`, `b` stand side by
/// side, or the length of `chars` when there is none.
fn find_pair(chars: &Vec<char>, from: usize, a: char, b: char) -> (i: usize)
    requires
        from <= chars@.len(),
    ensures
        i == from + first_pair(chars@.skip(from as int), a, b),
        from <= i <= chars@.len(),
{
    let n = chars.len();
    let mut i = from;
    while i < n && i + 1 < n
        invariant
            n == chars@.len(),
            from <= i <= n,
            from + first_pair(chars@.skip(from as int), a, b) == i + first_pair(
                chars@.skip(i as int),
                a,
                b,
            ),
        decreases n - i,
    {
        if chars[i] == a && chars[i + 1] == b {
            return i;
        }
        assert(chars@.skip(i as int).skip(1) == chars@.skip(i + 1));
        i += 1;
    }
    proof {
        lemma_first_pair_bound(chars@.skip(i as int), a, b);
    }
    n
}

/// `text` without the white space at its end.
pub fn trim_end(text: &str) -> (trimmed: String)
    ensures
        trimmed@ == trimmed_end(text@),
{
    let chars = to_chars(text);
    let mut end = chars.len();
    assert(chars@.take(end as int) == chars@);
    while end > 0 && is_whitespace(chars[end - 1])
        invariant
            chars@ == text@,
            end <= chars@.len(),
            end - trailing_white_space(chars@.take(end as int)) == chars@.len()
                - trailing_white_space(chars@),
        decreases end,
    {
        assert(chars@.take(end as int).drop_last() == chars@.take(end - 1));
        end -= 1;
    }
    assert(chars@.take(chars@.len() as int) == chars@);
    assert(text@.subrange(0, end as int) == text@.take(end as int));
    piece(text, 0, end)
}

/// The lines of `text`: its pieces between carriage return, line feed pairs.
pub fn split_lines(text: &str) -> (lines: Vec<String>)
    ensures
        lines.deep_view() == split_crlf(text@),
{
    let chars = to_chars(text);
    let n = chars.len();
    let mut lines: Vec<String> = Vec::new();
    let mut start: usize = 0;
    assert(text@.skip(0) == text@);
    assert(lines.deep_view() + split_crlf(text@) == split_crlf(text@));
    loop
        invariant
            chars@ == text@,
            n == chars@.len(),
            start <= n,
            split_crlf(text@) == lines.deep_view() + split_crlf(text@.skip(start as int)),
        decreases n - start,
    {
        let i = find_pair(&chars, start, '\r', '\n');
        let ghost rest = text@.skip(start as int);
        let ghost done = lines.deep_view();
        proof {
            lemma_first_pair_bound(rest, '\r', '\n');
        }
        if i < n {
            let line = piece(text, start, i);
            assert(rest.take(i - start) == text@.subrange(start as int, i as int));
            assert(rest.skip(i - start + 2) == text@.skip(i + 2));
            lines.push(line);
            assert(lines.deep_view() == done.push(line@));
            assert(done.push(line@) + split_crlf(text@.skip(i + 2)) == done + (seq![line@]
                + split_crlf(text@.skip(i + 2))));
            start = i + 2;
        } else {
            let line = piece(text, start, n);
            assert(rest == text@.subrange(start as int, n as int));
            lines.push(line);
            assert(lines.deep_view() == done.push(line@));
            assert(done.push(line@) == done + seq![line@]);
            return lines;
        }
    }
}

/// The white-space separated tokens of `line`, from left to right.
pub fn split_tokens(line: &str) -> (tokens: Vec<String>)
    ensures
        tokens.deep_view() == split_white_space(line@),
{
    let chars = to_chars(line);
    let n = chars.len();
    let mut tokens: Vec<String> = Vec::new();
    let mut at: usize = 0;
    assert(line@.skip(0) == line@);
    assert(tokens.deep_view() + split_white_space(line@) == split_white_space(line@));
    loop
        invariant
            chars@ == line@,
            n == chars@.len(),
            at <= n,
            split_white_space(line@) == tokens.deep_view() + split_white_space(
                line@.skip(at as int),
            ),
        decreases n - at,
    {
        let ghost rest = line@.skip(at as int);
        let ghost done = tokens.deep_view();
        let mut from = at;
        while from < n && is_whitespace(chars[from])
            invariant
                chars@ == line@,
                n == chars@.len(),
                at <= from <= n,
                rest == line@.skip(at as int),
                at + leading_white_space(rest) == from + leading_white_space(
                    line@.skip(from as int),
                ),
            decreases n - from,
        {
            assert(line@.skip(from as int).skip(1) == line@.skip(from + 1));
            from += 1;
        }
        let ghost word = line@.skip(from as int);
        assert(rest.skip(from - at) == word);
        let mut to = from;
        while to < n && !is_whitespace(chars[to])
            invariant
                chars@ == line@,
                n == chars@.len(),
                from <= to <= n,
                word == line@.skip(from as int),
                from + leading_token(word) == to + leading_token(line@.skip(to as int)),
            decreases n - to,
        {
            assert(line@.skip(to as int).skip(1) == line@.skip(to + 1));
            to += 1;
        }
        if from < to {
            let token = piece(line, from, to);
            assert(rest.subrange(from - at, to - at) == line@.subrange(from as int, to as int));
            assert(rest.skip(to - at) == line@.skip(to as int));
            tokens.push(token);
            assert(tokens.deep_view() == done.push(token@));
            assert(done.push(token@) + split_white_space(line@.skip(to as int)) == done + (
            seq![token@] + split_white_space(line@.skip(to as int))));
            at = to;
        } else {
            assert(done + Seq::<Seq<char>>::empty() == done);
            return tokens;
        }
    }
}

/// Parts a header line at its first colon, space pair into name and value;
/// `None` for a line that holds no such pair.
pub fn parse_header_line(line: &str) -> (field: Option<(String, String)>)
    ensures
        field.deep_view() == split_header(line@),
{
    let chars = to_chars(line);
    let n = chars.len();
    let i = find_pair(&chars, 0, ':', ' ');
    proof {
        assert(line@.skip(0) == line@);
        lemma_first_pair_bound(line@, ':', ' ');
    }
    if i < n {
        let name = piece(line, 0, i);
        let value = piece(line, i + 2, n);
        assert(line@.subrange(0, i as int) == line@.take(i as int));
        assert(line@.subrange(i + 2, n as int) == line@.skip(i + 2));
        Some((name, value))
    } else {
        None
    }
}

} // verus!
