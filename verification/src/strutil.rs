//! Character-level string helpers: conversion between `String` and
//! `Vec<char>`, equality tests, trimming and splitting.
//!
//! All parsing in this crate works over `Vec<char>`, whose view is the same
//! `Seq<char>` as the view of the `String` it came from.

use vstd::prelude::*;

verus! {

/// Relies on `String::push`: appends one character to the string.
#[verifier::external_body]
pub(crate) fn push_char(s: &mut String, c: char)
    ensures
        final(s)@ == old(s)@.push(c),
{
    s.push(c);
}

/// Copy the characters of a string slice into a vector, one `char` each.
pub fn to_chars(s: &str) -> (r: Vec<char>)
    ensures
        r@ == s@,
{
    let n = s.unicode_len();
    let mut r: Vec<char> = Vec::new();
    let mut i: usize = 0;
    while i < n
        invariant
            i <= n,
            n == s@.len(),
            r@ == s@.take(i as int),
        decreases n - i,
    {
        let c = s.get_char(i);
        r.push(c);
        i = i + 1;
        assert(s@.take(i as int) =~= s@.take(i - 1).push(s@[i - 1]));
    }
    assert(s@.take(n as int) =~= s@);
    r
}

/// Rebuild a `String` from a vector of characters.
pub fn from_chars(v: &Vec<char>) -> (r: String)
    ensures
        r@ == v@,
{
    let mut r = String::new();
    let mut i: usize = 0;
    while i < v.len()
        invariant
            i <= v@.len(),
            r@ == v@.take(i as int),
        decreases v@.len() - i,
    {
        push_char(&mut r, v[i]);
        i = i + 1;
        assert(v@.take(i as int) =~= v@.take(i - 1).push(v@[i - 1]));
    }
    assert(v@.take(v@.len() as int) =~= v@);
    r
}

/// True when the characters of `v` are exactly the characters of `s`.
pub fn chars_eq_str(v: &Vec<char>, s: &str) -> (r: bool)
    ensures
        r == (v@ == s@),
{
    let n = s.unicode_len();
    if v.len() != n {
        assert(v@ != s@) by {
            assert(v@.len() != s@.len());
        }
        return false;
    }
    let mut i: usize = 0;
    while i < n
        invariant
            i <= n,
            n == s@.len(),
            v@.len() == n,
            forall|j: int| 0 <= j < i ==> v@[j] == s@[j],
        decreases n - i,
    {
        if v[i] != s.get_char(i) {
            return false;
        }
        i = i + 1;
    }
    assert(v@ =~= s@);
    true
}

/// True when the two character vectors hold the same characters.
pub fn chars_eq(a: &Vec<char>, b: &Vec<char>) -> (r: bool)
    ensures
        r == (a@ == b@),
{
    if a.len() != b.len() {
        assert(a@ != b@) by {
            assert(a@.len() != b@.len());
        }
        return false;
    }
    let mut i: usize = 0;
    while i < a.len()
        invariant
            i <= a@.len(),
            a@.len() == b@.len(),
            forall|j: int| 0 <= j < i ==> a@[j] == b@[j],
        decreases a@.len() - i,
    {
        if a[i] != b[i] {
            return false;
        }
        i = i + 1;
    }
    assert(a@ =~= b@);
    true
}

/// Whitespace characters recognized by `trim_spec`.
pub open spec fn is_space(c: char) -> bool {
    c == ' ' || c == '\t' || c == '\n' || c == '\r'
}

/// Executable mirror of `is_space`.
pub fn is_space_exec(c: char) -> (r: bool)
    ensures
        r == is_space(c),
{
    c == ' ' || c == '\t' || c == '\n' || c == '\r'
}

/// The sequence with leading whitespace removed.
pub open spec fn trim_front(s: Seq<char>) -> Seq<char>
    decreases s.len(),
{
    if s.len() > 0 && is_space(s[0]) {
        trim_front(s.drop_first())
    } else {
        s
    }
}

/// The sequence with trailing whitespace removed.
pub open spec fn trim_back(s: Seq<char>) -> Seq<char>
    decreases s.len(),
{
    if s.len() > 0 && is_space(s.last()) {
        trim_back(s.drop_last())
    } else {
        s
    }
}

/// The sequence with leading and trailing whitespace removed.
pub open spec fn trim_spec(s: Seq<char>) -> Seq<char> {
    trim_back(trim_front(s))
}

proof fn lemma_trim_front_skip(s: Seq<char>, i: int)
    requires
        0 <= i <= s.len(),
        forall|j: int| 0 <= j < i ==> is_space(s[j]),
        i < s.len() ==> !is_space(s[i]),
    ensures
        trim_front(s) == s.skip(i),
    decreases i,
{
    if i == 0 {
        assert(s.skip(0) =~= s);
    } else {
        assert(is_space(s[0]));
        lemma_trim_front_skip(s.drop_first(), i - 1);
        assert(s.drop_first().skip(i - 1) =~= s.skip(i));
    }
}

proof fn lemma_trim_back_take(s: Seq<char>, e: int)
    requires
        0 <= e <= s.len(),
        forall|j: int| e <= j < s.len() ==> is_space(s[j]),
        e > 0 ==> !is_space(s[e - 1]),
    ensures
        trim_back(s) == s.take(e),
    decreases s.len(),
{
    if e == s.len() {
        if s.len() > 0 {
            assert(!is_space(s.last()));
        }
        assert(s.take(e) =~= s);
    } else {
        assert(is_space(s.last()));
        lemma_trim_back_take(s.drop_last(), e);
        assert(s.drop_last().take(e) =~= s.take(e));
    }
}

/// Remove leading and trailing whitespace from a character vector.
pub fn trim_chars(v: &Vec<char>) -> (r: Vec<char>)
    ensures
        r@ == trim_spec(v@),
{
    let n = v.len();
    let mut start: usize = 0;
    while start < n && is_space_exec(v[start])
        invariant
            start <= n,
            n == v@.len(),
            forall|j: int| 0 <= j < start ==> is_space(v@[j]),
        decreases n - start,
    {
        start = start + 1;
    }
    let mut end: usize = n;
    while end > start && is_space_exec(v[end - 1])
        invariant
            start <= end <= n,
            n == v@.len(),
            forall|j: int| end <= j < n ==> is_space(v@[j]),
        decreases end,
    {
        end = end - 1;
    }
    let mut r: Vec<char> = Vec::new();
    let mut i: usize = start;
    while i < end
        invariant
            start <= i <= end <= n,
            n == v@.len(),
            r@ == v@.subrange(start as int, i as int),
        decreases end - i,
    {
        r.push(v[i]);
        i = i + 1;
        assert(v@.subrange(start as int, i as int) =~= v@.subrange(start as int, i - 1).push(
            v@[i - 1],
        ));
    }
    proof {
        lemma_trim_front_skip(v@, start as int);
        let t = v@.skip(start as int);
        lemma_trim_back_take(t, end - start);
        assert(t.take(end - start) =~= v@.subrange(start as int, end as int));
    }
    r
}

/// Split on a one-character separator, accumulating the piece read so far.
pub open spec fn split_acc(s: Seq<char>, sep: char, cur: Seq<char>) -> Seq<Seq<char>>
    decreases s.len(),
{
    if s.len() == 0 {
        seq![cur]
    } else if s[0] == sep {
        seq![cur] + split_acc(s.drop_first(), sep, Seq::empty())
    } else {
        split_acc(s.drop_first(), sep, cur.push(s[0]))
    }
}

/// The pieces of `s` between occurrences of `sep` (empty pieces included).
pub open spec fn split_chars(s: Seq<char>, sep: char) -> Seq<Seq<char>> {
    split_acc(s, sep, Seq::empty())
}

/// Split a character vector on a one-character separator.
pub fn split_chars_exec(s: &Vec<char>, sep: char) -> (r: Vec<Vec<char>>)
    ensures
        r.deep_view() == split_chars(s@, sep),
{
    let mut out: Vec<Vec<char>> = Vec::new();
    let mut cur: Vec<char> = Vec::new();
    let mut i: usize = 0;
    proof {
        assert(s@.skip(0) =~= s@);
        assert(out.deep_view() + split_acc(s@, sep, cur@) =~~= split_acc(s@, sep, Seq::empty()));
    }
    while i < s.len()
        invariant
            i <= s@.len(),
            split_chars(s@, sep) == out.deep_view() + split_acc(s@.skip(i as int), sep, cur@),
        decreases s@.len() - i,
    {
        let ghost pre = s@.skip(i as int);
        assert(pre[0] == s@[i as int]);
        assert(pre.drop_first() =~= s@.skip(i + 1));
        if s[i] == sep {
            let ghost old_deep = out.deep_view();
            let ghost old_cur = cur@;
            out.push(cur);
            cur = Vec::new();
            proof {
                assert(out.deep_view() =~~= old_deep.push(old_cur));
                assert(out.deep_view() + split_acc(s@.skip(i + 1), sep, Seq::empty())
                    =~~= old_deep + (seq![old_cur] + split_acc(
                    s@.skip(i + 1),
                    sep,
                    Seq::empty(),
                )));
            }
        } else {
            cur.push(s[i]);
        }
        i = i + 1;
    }
    assert(s@.skip(s@.len() as int) =~= Seq::<char>::empty());
    out.push(cur);
    proof {
        assert(out.deep_view() =~~= split_chars(s@, sep));
    }
    out
}

/// Split on a two-character separator, accumulating the piece read so far.
pub open spec fn split2_acc(s: Seq<char>, a: char, b: char, cur: Seq<char>) -> Seq<Seq<char>>
    decreases s.len(),
{
    if s.len() == 0 {
        seq![cur]
    } else if s.len() >= 2 && s[0] == a && s[1] == b {
        seq![cur] + split2_acc(s.skip(2), a, b, Seq::empty())
    } else {
        split2_acc(s.drop_first(), a, b, cur.push(s[0]))
    }
}

/// The pieces of `s` between occurrences of the two-character separator `ab`.
pub open spec fn split2_chars(s: Seq<char>, a: char, b: char) -> Seq<Seq<char>> {
    split2_acc(s, a, b, Seq::empty())
}

/// Split a character vector on a two-character separator.
pub fn split2_chars_exec(s: &Vec<char>, a: char, b: char) -> (r: Vec<Vec<char>>)
    ensures
        r.deep_view() == split2_chars(s@, a, b),
{
    let mut out: Vec<Vec<char>> = Vec::new();
    let mut cur: Vec<char> = Vec::new();
    let mut i: usize = 0;
    proof {
        assert(s@.skip(0) =~= s@);
        assert(out.deep_view() + split2_acc(s@, a, b, cur@) =~~= split2_acc(
            s@,
            a,
            b,
            Seq::empty(),
        ));
    }
    while i < s.len()
        invariant
            i <= s@.len(),
            split2_chars(s@, a, b) == out.deep_view() + split2_acc(s@.skip(i as int), a, b, cur@),
        decreases s@.len() - i,
    {
        let ghost pre = s@.skip(i as int);
        assert(pre[0] == s@[i as int]);
        assert(pre.drop_first() =~= s@.skip(i + 1));
        if i + 1 < s.len() && s[i] == a && s[i + 1] == b {
            assert(pre[1] == s@[i + 1]);
            assert(pre.skip(2) =~= s@.skip(i + 2));
            let ghost old_deep = out.deep_view();
            let ghost old_cur = cur@;
            out.push(cur);
            cur = Vec::new();
            proof {
                assert(out.deep_view() =~~= old_deep.push(old_cur));
                assert(out.deep_view() + split2_acc(s@.skip(i + 2), a, b, Seq::empty())
                    =~~= old_deep + (seq![old_cur] + split2_acc(
                    s@.skip(i + 2),
                    a,
                    b,
                    Seq::empty(),
                )));
            }
            i = i + 2;
        } else {
            assert(!(pre.len() >= 2 && pre[0] == a && pre[1] == b));
            cur.push(s[i]);
            i = i + 1;
        }
    }
    assert(s@.skip(s@.len() as int) =~= Seq::<char>::empty());
    out.push(cur);
    proof {
        assert(out.deep_view() =~~= split2_chars(s@, a, b));
    }
    out
}

/// Trim each piece and keep only the non-empty results.
pub open spec fn clean_pieces(parts: Seq<Seq<char>>) -> Seq<Seq<char>>
    decreases parts.len(),
{
    if parts.len() == 0 {
        Seq::empty()
    } else {
        let t = trim_spec(parts.first());
        let rest = clean_pieces(parts.drop_first());
        if t.len() > 0 {
            seq![t] + rest
        } else {
            rest
        }
    }
}

/// Executable mirror of `clean_pieces`.
pub fn clean_pieces_exec(parts: &Vec<Vec<char>>) -> (r: Vec<Vec<char>>)
    ensures
        r.deep_view() == clean_pieces(parts.deep_view()),
{
    let mut out: Vec<Vec<char>> = Vec::new();
    let mut i: usize = 0;
    proof {
        assert(parts.deep_view().skip(0) =~~= parts.deep_view());
        assert(out.deep_view() + clean_pieces(parts.deep_view()) =~~= clean_pieces(
            parts.deep_view(),
        ));
    }
    while i < parts.len()
        invariant
            i <= parts@.len(),
            parts.deep_view().len() == parts@.len(),
            forall|j: int|
                0 <= j < parts@.len() ==> parts.deep_view()[j] == #[trigger] parts@[j]@,
            clean_pieces(parts.deep_view()) == out.deep_view() + clean_pieces(
                parts.deep_view().skip(i as int),
            ),
        decreases parts@.len() - i,
    {
        let ghost pre = parts.deep_view().skip(i as int);
        assert(pre[0] == parts.deep_view()[i as int]);
        assert(pre.drop_first() =~~= parts.deep_view().skip(i + 1));
        let t = trim_chars(&parts[i]);
        if t.len() > 0 {
            let ghost old_deep = out.deep_view();
            let ghost tv = t@;
            out.push(t);
            proof {
                assert(out.deep_view() =~~= old_deep.push(tv));
                assert(out.deep_view() + clean_pieces(parts.deep_view().skip(i + 1)) =~~= old_deep
                    + (seq![tv] + clean_pieces(parts.deep_view().skip(i + 1))));
            }
        }
        i = i + 1;
    }
    assert(parts.deep_view().skip(parts@.len() as int) =~~= Seq::<Seq<char>>::empty());
    assert(out.deep_view() + clean_pieces(Seq::empty()) =~~= out.deep_view());
    out
}

/// Keep only the non-empty pieces, without trimming.
pub open spec fn nonempty_pieces(parts: Seq<Seq<char>>) -> Seq<Seq<char>>
    decreases parts.len(),
{
    if parts.len() == 0 {
        Seq::empty()
    } else {
        let rest = nonempty_pieces(parts.drop_first());
        if parts.first().len() > 0 {
            seq![parts.first()] + rest
        } else {
            rest
        }
    }
}

/// Executable mirror of `nonempty_pieces`.
pub fn nonempty_pieces_exec(parts: Vec<Vec<char>>) -> (r: Vec<Vec<char>>)
    ensures
        r.deep_view() == nonempty_pieces(parts.deep_view()),
{
    let mut out: Vec<Vec<char>> = Vec::new();
    let mut i: usize = 0;
    proof {
        assert(parts.deep_view().skip(0) =~~= parts.deep_view());
        assert(out.deep_view() + nonempty_pieces(parts.deep_view()) =~~= nonempty_pieces(
            parts.deep_view(),
        ));
    }
    while i < parts.len()
        invariant
            i <= parts@.len(),
            parts.deep_view().len() == parts@.len(),
            forall|j: int|
                0 <= j < parts@.len() ==> parts.deep_view()[j] == #[trigger] parts@[j]@,
            nonempty_pieces(parts.deep_view()) == out.deep_view() + nonempty_pieces(
                parts.deep_view().skip(i as int),
            ),
        decreases parts@.len() - i,
    {
        let ghost pre = parts.deep_view().skip(i as int);
        assert(pre[0] == parts.deep_view()[i as int]);
        assert(pre.drop_first() =~~= parts.deep_view().skip(i + 1));
        if parts[i].len() > 0 {
            let ghost old_deep = out.deep_view();
            let piece = clone_chars(&parts[i]);
            let ghost pv = piece@;
            out.push(piece);
            proof {
                assert(out.deep_view() =~~= old_deep.push(pv));
                assert(out.deep_view() + nonempty_pieces(parts.deep_view().skip(i + 1))
                    =~~= old_deep + (seq![pv] + nonempty_pieces(parts.deep_view().skip(i + 1))));
            }
        }
        i = i + 1;
    }
    assert(parts.deep_view().skip(parts@.len() as int) =~~= Seq::<Seq<char>>::empty());
    assert(out.deep_view() + nonempty_pieces(Seq::empty()) =~~= out.deep_view());
    out
}

/// Copy a character vector.
pub fn clone_chars(v: &Vec<char>) -> (r: Vec<char>)
    ensures
        r@ == v@,
{
    let mut r: Vec<char> = Vec::new();
    let mut i: usize = 0;
    while i < v.len()
        invariant
            i <= v@.len(),
            r@ == v@.take(i as int),
        decreases v@.len() - i,
    {
        r.push(v[i]);
        i = i + 1;
        assert(v@.take(i as int) =~= v@.take(i - 1).push(v@[i - 1]));
    }
    assert(v@.take(v@.len() as int) =~= v@);
    r
}

/// A decimal digit.
pub open spec fn is_digit(c: char) -> bool {
    '0' <= c && c <= '9'
}

/// The numeric value of a decimal digit character.
pub open spec fn digit_val(c: char) -> int {
    c as int - '0' as int
}

/// Every character of `s` is a decimal digit.
pub open spec fn all_digits(s: Seq<char>) -> bool {
    forall|i: int| 0 <= i < s.len() ==> is_digit(#[trigger] s[i])
}

/// The value of a decimal digit string, most significant digit first.
pub open spec fn dec_val(s: Seq<char>) -> int
    decreases s.len(),
{
    if s.len() == 0 {
        0
    } else {
        dec_val(s.drop_last()) * 10 + digit_val(s.last())
    }
}

/// A well-formed small decimal number: one to four digits.
pub open spec fn digits_wf(s: Seq<char>) -> bool {
    1 <= s.len() <= 4 && all_digits(s)
}

/// Parse a one-to-four-digit decimal number.
pub fn parse_small_u32(v: &Vec<char>) -> (r: Option<u32>)
    ensures
        r is Some <==> digits_wf(v@),
        r is Some ==> r->Some_0 == dec_val(v@) && r->Some_0 <= 9999,
{
    if v.len() == 0 || v.len() > 4 {
        return None;
    }
    let mut acc: u32 = 0;
    let mut i: usize = 0;
    while i < v.len()
        invariant
            i <= v@.len() <= 4,
            forall|j: int| 0 <= j < i ==> is_digit(#[trigger] v@[j]),
            acc == dec_val(v@.take(i as int)),
            acc <= (if i == 0 {
                0int
            } else if i == 1 {
                9int
            } else if i == 2 {
                99int
            } else if i == 3 {
                999int
            } else {
                9999int
            }),
        decreases v@.len() - i,
    {
        let c = v[i];
        if c < '0' || c > '9' {
            return None;
        }
        let d: u32 = (c as u32) - ('0' as u32);
        assert(d == digit_val(v@[i as int]) && d <= 9);
        acc = acc * 10 + d;
        i = i + 1;
        assert(v@.take(i as int).drop_last() =~= v@.take(i - 1));
        assert(v@.take(i as int).last() == v@[i - 1]);
    }
    assert(v@.take(v@.len() as int) =~= v@);
    Some(acc)
}

/// The character for a decimal digit value.
pub open spec fn digit_char(d: int) -> char {
    if d == 0 {
        '0'
    } else if d == 1 {
        '1'
    } else if d == 2 {
        '2'
    } else if d == 3 {
        '3'
    } else if d == 4 {
        '4'
    } else if d == 5 {
        '5'
    } else if d == 6 {
        '6'
    } else if d == 7 {
        '7'
    } else if d == 8 {
        '8'
    } else {
        '9'
    }
}

/// Executable mirror of `digit_char`.
pub fn digit_char_exec(d: u32) -> (r: char)
    requires
        d <= 9,
    ensures
        r == digit_char(d as int),
{
    if d == 0 {
        '0'
    } else if d == 1 {
        '1'
    } else if d == 2 {
        '2'
    } else if d == 3 {
        '3'
    } else if d == 4 {
        '4'
    } else if d == 5 {
        '5'
    } else if d == 6 {
        '6'
    } else if d == 7 {
        '7'
    } else if d == 8 {
        '8'
    } else {
        '9'
    }
}

/// Decimal digits of a non-negative number, most significant first, no
/// leading zero.
pub open spec fn dec_of(n: int) -> Seq<char>
    decreases n,
{
    if n < 10 {
        seq![digit_char(n)]
    } else {
        dec_of(n / 10).push(digit_char(n % 10))
    }
}

/// Executable mirror of `dec_of`.
pub fn dec_of_exec(n: u64) -> (r: Vec<char>)
    ensures
        r@ == dec_of(n as int),
    decreases n,
{
    if n < 10 {
        let mut r: Vec<char> = Vec::new();
        r.push(digit_char_exec(n as u32));
        assert(r@ =~= dec_of(n as int));
        r
    } else {
        let mut r = dec_of_exec(n / 10);
        r.push(digit_char_exec((n % 10) as u32));
        assert(r@ =~= dec_of(n as int));
        r
    }
}

/// The pieces joined with a comma between each two.
pub open spec fn join_comma(ws: Seq<Seq<char>>) -> Seq<char>
    decreases ws.len(),
{
    if ws.len() == 0 {
        Seq::empty()
    } else if ws.len() == 1 {
        ws[0]
    } else {
        join_comma(ws.drop_last()) + ","@ + ws.last()
    }
}

/// Join a list of strings with commas.
pub fn join_comma_exec(v: &Vec<String>) -> (r: String)
    ensures
        r@ == join_comma(v@.map_values(|s: String| s@)),
{
    let ghost vm = v@.map_values(|s: String| s@);
    let mut r = String::new();
    let mut i: usize = 0;
    assert(vm.take(0) =~= Seq::<Seq<char>>::empty());
    while i < v.len()
        invariant
            i <= v@.len(),
            vm == v@.map_values(|s: String| s@),
            vm.len() == v@.len(),
            r@ == join_comma(vm.take(i as int)),
        decreases v@.len() - i,
    {
        if i > 0 {
            r.append(",");
        }
        r.append(v[i].as_str());
        i = i + 1;
        proof {
            assert(vm.take(i as int).drop_last() =~= vm.take(i - 1));
            assert(vm.take(i as int).last() == vm[i - 1]);
            if i == 1 {
                assert(r@ =~= vm[0]);
            }
        }
    }
    assert(vm.take(vm.len() as int) =~= vm);
    r
}

} // verus!
