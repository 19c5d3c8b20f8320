//! Text helpers over the character view of strings: equality, decimal
//! numerals, newline escaping, first lines and joins.

use vstd::prelude::*;
use vstd::utf8::*;

verus! {

broadcast use encode_utf8_decode_utf8;

/// Appends one character by `String::push` from std; the contract claims
/// that the string then holds its old characters followed by `c`.
#[verifier::external_body]
pub(crate) fn push_char(s: &mut String, c: char)
    ensures
        final(s)@ == old(s)@.push(c),
{
    s.push(c);
}

/// `a` and `b` hold the same characters.
pub fn str_equals(a: &str, b: &str) -> (r: bool)
    ensures
        r == (a@ == b@),
{
    let x = a.as_bytes();
    let y = b.as_bytes();
    if x.len() != y.len() {
        proof {
            if a@ == b@ {
                assert(x@ == y@);
            }
        }
        return false;
    }
    let mut i: usize = 0;
    while i < x.len()
        invariant
            x@ == encode_utf8(a@),
            y@ == encode_utf8(b@),
            x@.len() == y@.len(),
            0 <= i <= x@.len(),
            forall|j: int| 0 <= j < i ==> x@[j] == y@[j],
        decreases x@.len() - i,
    {
        if x[i] != y[i] {
            proof {
                if a@ == b@ {
                    assert(x@ == y@);
                }
            }
            return false;
        }
        i = i + 1;
    }
    assert(x@ =~= y@);
    assert(decode_utf8(encode_utf8(a@)) == a@);
    assert(decode_utf8(encode_utf8(b@)) == b@);
    true
}

/// The character of a decimal digit.
pub open spec fn digit_char(d: nat) -> char {
    if d == 0 {
        '0'
    } else if d == 1 {
        '1'
    } else if d == 2 {
        '2'
    } else if d == 3 {
        '3'
    } else if d == 4 {
        '4'
    } else if d == 5 {
        '5'
    } else if d == 6 {
        '6'
    } else if d == 7 {
        '7'
    } else if d == 8 {
        '8'
    } else {
        '9'
    }
}

/// The decimal numeral of `n`, without leading zeros.
pub open spec fn decimal(n: nat) -> Seq<char>
    decreases n,
{
    if n < 10 {
        seq![digit_char(n)]
    } else {
        decimal(n / 10).push(digit_char(n % 10))
    }
}

fn digit(d: usize) -> (c: char)
    requires
        d < 10,
    ensures
        c == digit_char(d as nat),
{
    if d == 0 {
        '0'
    } else if d == 1 {
        '1'
    } else if d == 2 {
        '2'
    } else if d == 3 {
        '3'
    } else if d == 4 {
        '4'
    } else if d == 5 {
        '5'
    } else if d == 6 {
        '6'
    } else if d == 7 {
        '7'
    } else if d == 8 {
        '8'
    } else {
        '9'
    }
}

/// Appends the decimal numeral of `n`.
pub fn push_decimal(s: &mut String, n: usize)
    ensures
        final(s)@ == old(s)@ + decimal(n as nat),
    decreases n,
{
    if n >= 10 {
        push_decimal(s, n / 10);
    }
    push_char(s, digit(n % 10));
}

/// `s` with every line feed replaced by the three characters `%0A`.
pub open spec fn escape_newlines(s: Seq<char>) -> Seq<char>
    decreases s.len(),
{
    if s.len() == 0 {
        Seq::empty()
    } else if s.last() == '\n' {
        escape_newlines(s.drop_last()) + seq!['%', '0', 'A']
    } else {
        escape_newlines(s.drop_last()).push(s.last())
    }
}

/// Appends `s` with its line feeds encoded as `%0A`.
pub fn push_escaped(r: &mut String, s: &str)
    ensures
        final(r)@ == old(r)@ + escape_newlines(s@),
{
    let ghost start = r@;
    for c in it: s.chars()
        invariant
            r@ == start + escape_newlines(it.seq().take(it.index())),
            it.seq() == s@,
    {
        assert(it.seq().take(it.index() + 1).drop_last() == it.seq().take(it.index()));
        if c == '\n' {
            push_char(r, '%');
            push_char(r, '0');
            push_char(r, 'A');
        } else {
            push_char(r, c);
        }
    }
    assert(s@.take(s@.len() as int) == s@);
}

/// Escaping leaves no line feed behind.
pub proof fn lemma_escaped_has_no_newline(s: Seq<char>)
    ensures
        !escape_newlines(s).contains('\n'),
    decreases s.len(),
{
    if s.len() > 0 {
        lemma_escaped_has_no_newline(s.drop_last());
        let e = escape_newlines(s);
        let p = escape_newlines(s.drop_last());
        if e.contains('\n') {
            let k = choose|k: int| 0 <= k < e.len() && e[k] == '\n';
            if k < p.len() {
                assert(p[k] == '\n');
            }
        }
    }
}

/// The index of the first line feed of `s`, or its length when it has none.
pub open spec fn newline_index(s: Seq<char>) -> nat
    decreases s.len(),
{
    if s.len() == 0 {
        0
    } else if s[0] == '\n' {
        0
    } else {
        1 + newline_index(s.drop_first())
    }
}

proof fn lemma_newline_index(s: Seq<char>, i: int)
    requires
        0 <= i <= s.len(),
        forall|j: int| 0 <= j < i ==> s[j] != '\n',
        i == s.len() || s[i] == '\n',
    ensures
        newline_index(s) == i,
    decreases i,
{
    if i > 0 {
        lemma_newline_index(s.drop_first(), i - 1);
    }
}

/// The first line of `s` as `str::lines` yields it: the text before the
/// first line feed, without a carriage return that directly precedes that
/// line feed. The whole of `s` when it holds no line feed.
pub open spec fn first_line(s: Seq<char>) -> Seq<char> {
    let k = newline_index(s) as int;
    if k < s.len() && k > 0 && s[k - 1] == '\r' {
        s.take(k - 1)
    } else {
        s.take(k)
    }
}

/// Appends the first line of `s`.
pub fn push_first_line(r: &mut String, s: &str)
    ensures
        final(r)@ == old(r)@ + first_line(s@),
{
    let ghost start = r@;
    let mut line = String::new();
    let mut pending_cr = false;
    let mut found = false;
    let ghost mut k: int = 0;
    for c in it: s.chars()
        invariant
            it.seq() == s@,
            !found ==> k == it.index(),
            0 <= k <= it.index(),
            k <= s@.len(),
            forall|j: int| 0 <= j < k ==> s@[j] != '\n',
            found ==> k < s@.len() && s@[k] == '\n',
            pending_cr == (k > 0 && s@[k - 1] == '\r'),
            line@ == (if pending_cr { s@.take(k - 1) } else { s@.take(k) }),
    {
        if !found {
            if c == '\n' {
                found = true;
            } else {
                if pending_cr {
                    push_char(&mut line, '\r');
                }
                if c == '\r' {
                    pending_cr = true;
                } else {
                    push_char(&mut line, c);
                    pending_cr = false;
                }
                proof {
                    k = k + 1;
                    if k >= 2 {
                        assert(s@.take(k - 1) =~= s@.take(k - 2).push(s@[k - 2]));
                    }
                    assert(s@.take(k) =~= s@.take(k - 1).push(s@[k - 1]));
                }
            }
        }
    }
    proof {
        lemma_newline_index(s@, k);
    }
    if pending_cr && !found {
        push_char(&mut line, '\r');
        assert(s@.take(k) =~= s@.take(k - 1).push(s@[k - 1]));
    }
    r.append(line.as_str());
}

proof fn lemma_newline_index_bounds(s: Seq<char>)
    ensures
        newline_index(s) <= s.len(),
        forall|j: int| 0 <= j < newline_index(s) ==> s[j] != '\n',
    decreases s.len(),
{
    if s.len() > 0 && s[0] != '\n' {
        let t = s.drop_first();
        lemma_newline_index_bounds(t);
        assert forall|j: int| 0 <= j < newline_index(s) implies s[j] != '\n' by {
            if j > 0 {
                assert(s[j] == t[j - 1]);
            }
        }
    }
}

/// A first line holds no line feed.
pub proof fn lemma_first_line_has_no_newline(s: Seq<char>)
    ensures
        !first_line(s).contains('\n'),
{
    lemma_newline_index_bounds(s);
    let l = first_line(s);
    if l.contains('\n') {
        let k = choose|k: int| 0 <= k < l.len() && l[k] == '\n';
        assert(s[k] == '\n');
    }
}

/// The strings of `list` with `sep` between each two neighbours.
pub open spec fn join(list: Seq<Seq<char>>, sep: Seq<char>) -> Seq<char>
    decreases list.len(),
{
    if list.len() == 0 {
        Seq::empty()
    } else if list.len() == 1 {
        list[0]
    } else {
        join(list.drop_last(), sep) + sep + list.last()
    }
}

/// Joining one more string appends the separator and that string, or gives
/// the string alone when it is the first: every element is kept, in order,
/// whatever the length of the list.
pub proof fn lemma_join_push(list: Seq<Seq<char>>, sep: Seq<char>, x: Seq<char>)
    ensures
        join(Seq::empty(), sep) == Seq::<char>::empty(),
        join(list.push(x), sep) == if list.len() == 0 {
            x
        } else {
            join(list, sep) + sep + x
        },
{
    assert(list.push(x).drop_last() =~= list);
    if list.len() == 0 {
        assert(list.push(x)[0] == x);
    }
}

/// The sum of the lengths of the strings of `list`.
pub open spec fn total_len(list: Seq<Seq<char>>) -> nat
    decreases list.len(),
{
    if list.len() == 0 {
        0
    } else {
        total_len(list.drop_last()) + list.last().len()
    }
}

/// A join is exactly as long as its elements together with one separator
/// between each two neighbours.
pub proof fn lemma_join_len(list: Seq<Seq<char>>, sep: Seq<char>)
    requires
        list.len() > 0,
    ensures
        join(list, sep).len() == total_len(list) + (list.len() - 1) * sep.len(),
    decreases list.len(),
{
    if list.len() == 1 {
        assert(list.drop_last().len() == 0);
    } else {
        lemma_join_len(list.drop_last(), sep);
        let n = list.len() as int;
        let k = sep.len() as int;
        assert((n - 2) * k + k == (n - 1) * k) by (nonlinear_arith);
    }
}

} // verus!
