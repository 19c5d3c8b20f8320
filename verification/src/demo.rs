//! Small string and integer helpers.

use vstd::prelude::*;
use vstd::utf8::encode_utf8;

verus! {

/// A greeting for `name`.
pub fn greet(name: &str) -> (r: String)
    ensures
        r@ == "Hello, "@ + name@,
{
    let mut r = String::from_str("Hello, ");
    r.append(name);
    r
}

/// The name held by `opt`, or `anonymous`.
pub fn name_or_default(opt: Option<String>) -> (r: String)
    ensures
        r@ == match opt {
            Some(s) => s@,
            None => "anonymous"@,
        },
{
    match opt {
        Some(s) => s,
        None => String::from_str("anonymous"),
    }
}

/// The pieces of `s` between the occurrences of `sep`, as `str::split`
/// yields them: one more piece than there are separators, empty pieces
/// included.
pub open spec fn split_on(s: Seq<char>, sep: char) -> Seq<Seq<char>>
    decreases s.len(),
{
    if s.len() == 0 {
        seq![Seq::empty()]
    } else {
        let rest = split_on(s.drop_last(), sep);
        if s.last() == sep {
            rest.push(Seq::empty())
        } else {
            rest.update(rest.len() - 1, rest.last().push(s.last()))
        }
    }
}

/// The characters of each string slice.
pub open spec fn strs_view(list: Seq<&str>) -> Seq<Seq<char>> {
    list.map_values(|s: &str| s@)
}

/// The pieces of `input` around each letter `a`.
pub fn letters_around_a<'a>(input: &'a str) -> (r: Vec<&'a str>)
    ensures
        strs_view(r@) == split_on(input@, 'a'),
{
    let n = input.unicode_len();
    let mut out: Vec<&'a str> = Vec::new();
    let mut start: usize = 0;
    let mut i: usize = 0;
    assert(input@.take(0) =~= Seq::<char>::empty());
    assert(input@.subrange(0, 0) =~= Seq::<char>::empty());
    assert(strs_view(out@).push(input@.subrange(0, 0)) =~= seq![Seq::<char>::empty()]);
    for c in it: input.chars()
        invariant
            it.seq() == input@,
            n == input@.len(),
            i == it.index(),
            start <= i <= n,
            split_on(input@.take(i as int), 'a') == strs_view(out@).push(
                input@.subrange(start as int, i as int),
            ),
    {
        let ghost prev = strs_view(out@);
        assert(input@.take(i + 1).drop_last() =~= input@.take(i as int));
        assert(input@.take(i + 1).last() == c);
        if c == 'a' {
            let piece = input.substring_char(start, i);
            out.push(piece);
            start = i + 1;
            assert(input@.subrange(start as int, i + 1) =~= Seq::<char>::empty());
            assert(strs_view(out@) =~= prev.push(piece@));
        } else {
            assert(input@.subrange(start as int, i + 1) =~= input@.subrange(start as int, i as int).push(c));
        }
        i = i + 1;
    }
    assert(input@.take(n as int) =~= input@);
    let ghost prev = strs_view(out@);
    let last = input.substring_char(start, i);
    out.push(last);
    assert(strs_view(out@) =~= prev.push(last@));
    out
}

/// A copy of `s`.
pub fn overly_cloney(s: String) -> (r: String)
    ensures
        r@ == s@,
{
    let x = s.clone();
    x.clone()
}

/// The low 32 bits of `big`, read as a signed number.
pub fn truncate(big: i64) -> (r: i32)
    ensures
        r == big as i32,
        i32::MIN <= big <= i32::MAX ==> r == big,
{
    big as i32
}

/// An owned copy of `s`.
pub fn echo_owned(s: &str) -> (r: String)
    ensures
        r@ == s@,
{
    s.to_owned()
}

/// `s` holds no characters.
pub fn looks_empty(s: &str) -> (r: bool)
    ensures
        r == (s@.len() == 0),
{
    s.is_empty()
}

/// The length of `s` in UTF-8 bytes.
pub fn byte_count(s: &str) -> (r: usize)
    ensures
        r == encode_utf8(s@).len(),
{
    s.as_bytes().len()
}

} // verus!
