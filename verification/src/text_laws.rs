//! What the operations on texts give: trimming, splitting, numbers and their order.

use crate::text::{
    ascii_lowered, before, begins, chomp, decimal, digit_char, digit_value, digits_value, drop_back,
    drop_front, find, find_space, in_class, joined, last_place, lemma_drop_back, lemma_drop_front,
    lemma_find, lines, number, replaced, space, split, substituted, trimmed, words, Class,
};
use vstd::prelude::*;

verus! {

/// A trimmed text neither starts nor ends with a space. It is a part of the text, and only
/// spaces are left out on both sides.
pub proof fn law_trimmed(s: Seq<char>)
    ensures
        trimmed(s).len() > 0 ==> !space(trimmed(s)[0]) && !space(trimmed(s).last()),
        exists|i: int|
            0 <= i && i + trimmed(s).len() <= s.len() && #[trigger] s.subrange(
                i,
                i + trimmed(s).len(),
            ) == trimmed(s) && (forall|k: int| 0 <= k < i ==> space(#[trigger] s[k])) && (forall|
                k: int,
            |
                i + trimmed(s).len() <= k < s.len() ==> space(#[trigger] s[k])),
        trimmed(trimmed(s)) == trimmed(s),
{
    let front = drop_front(s, Class::Space);
    lemma_drop_front(s, Class::Space);
    lemma_dropped_spaces(s);
    lemma_drop_back(front, Class::Space);
    let t = trimmed(s);
    let i = s.len() - front.len();
    assert(s.subrange(i, i + t.len()) =~= t);
    assert forall|k: int| i + t.len() <= k < s.len() implies space(#[trigger] s[k]) by {
        assert(front[k - i] == s[k]);
    }
    if t.len() > 0 {
        assert(t[0] == front[0]);
        assert(drop_front(t, Class::Space) == t);
        assert(drop_back(t, Class::Space) == t);
    } else {
        assert(drop_front(t, Class::Space) == t);
        assert(drop_back(t, Class::Space) == t);
    }
}

proof fn lemma_dropped_spaces(s: Seq<char>)
    ensures
        drop_front(s, Class::Space).len() <= s.len(),
        forall|k: int|
            0 <= k < s.len() - drop_front(s, Class::Space).len() ==> space(#[trigger] s[k]),
    decreases s.len(),
{
    if s.len() > 0 && space(s[0]) {
        let rest = s.drop_first();
        lemma_dropped_spaces(rest);
        assert forall|k: int|
            0 <= k < s.len() - drop_front(s, Class::Space).len() implies space(#[trigger] s[k]) by {
            if k > 0 {
                assert(rest[k - 1] == s[k]);
            }
        }
    }
}

/// A text without spaces at its ends stays as it is.
pub proof fn law_nothing_to_trim(s: Seq<char>)
    requires
        s.len() > 0 ==> !space(s[0]) && !space(s.last()),
    ensures
        trimmed(s) == s,
{
}

/// The white space: the blank, the tab and the ends of lines are, letters, digits and signs
/// are not.
pub proof fn law_spaces(c: char)
    ensures
        space(' ') && space('\t') && space('\n') && space('\r'),
        '!' <= c <= '~' ==> !space(c),
        in_class(Class::Eol, c) == (c == '\r' || c == '\n'),
        in_class(Class::Is(c), c),
{
}

/// The parts of a text hold no separator, and put together again with it they are the text.
pub proof fn law_split_again(s: Seq<char>, c: char)
    ensures
        split(s, c).len() > 0,
        forall|i: int| 0 <= i < split(s, c).len() ==> !(#[trigger] split(s, c)[i]).contains(c),
        joined(split(s, c), seq![c]) == s,
    decreases s.len(),
{
    lemma_find(s, c);
    let n = find(s, c);
    if 0 <= n < s.len() {
        let rest = s.skip(n + 1);
        law_split_again(rest, c);
        let head = s.take(n);
        let parts = split(s, c);
        let tail = split(rest, c);
        assert forall|i: int| 0 <= i < parts.len() implies !(#[trigger] parts[i]).contains(c) by {
            if i == 0 {
                if head.contains(c) {
                    let k = choose|k: int| 0 <= k < head.len() && head[k] == c;
                    assert(s[k] == c);
                }
            } else {
                assert(parts[i] == tail[i - 1]);
            }
        }
        lemma_joined_first(head, tail, seq![c]);
        assert(head + seq![c] + rest =~= s);
    } else {
        if s.contains(c) {
            assert(false);
        }
    }
}

/// Joining puts the separator between the parts.
pub proof fn lemma_joined_first(head: Seq<char>, tail: Seq<Seq<char>>, sep: Seq<char>)
    requires
        tail.len() > 0,
    ensures
        joined(seq![head] + tail, sep) == head + sep + joined(tail, sep),
    decreases tail.len(),
{
    let all = seq![head] + tail;
    if tail.len() == 1 {
        assert(all.drop_last() =~= seq![head]);
        reveal_with_fuel(joined, 2);
    } else {
        let rest = tail.drop_last();
        lemma_joined_first(head, rest, sep);
        assert(all.drop_last() =~= seq![head] + rest);
        assert(joined(all, sep) =~= head + sep + joined(tail, sep));
    }
}

/// A line holds no line feed; a text without one is a line, and an empty text has none.
pub proof fn law_lines(s: Seq<char>, a: Seq<char>, b: Seq<char>)
    ensures
        lines(Seq::empty()).len() == 0,
        forall|i: int| 0 <= i < lines(s).len() ==> !(#[trigger] lines(s)[i]).contains('\n'),
        !s.contains('\n') && s.len() > 0 ==> lines(s) == seq![s],
        !a.contains('\n') && (a.len() > 0 ==> a.last() != '\r') ==> lines(a + seq!['\n'] + b)
            == seq![a] + lines(b),
        !a.contains('\n') && (a.len() > 0 ==> a.last() != '\r') ==> lines(
            a + seq!['\r'] + seq!['\n'] + b,
        ) == seq![a] + lines(b),
    decreases s.len(),
{
    lemma_find(s, '\n');
    let n = find(s, '\n');
    if 0 <= n < s.len() {
        let rest = s.skip(n + 1);
        law_lines(rest, a, b);
        let head = chomp(s.take(n));
        assert forall|i: int| 0 <= i < lines(s).len() implies !(#[trigger] lines(s)[i]).contains(
            '\n',
        ) by {
            if i == 0 {
                if head.contains('\n') {
                    let k = choose|k: int| 0 <= k < head.len() && head[k] == '\n';
                    assert(s[k] == '\n');
                }
            } else {
                assert(lines(s)[i] == lines(rest)[i - 1]);
            }
        }
    } else {
        assert forall|i: int| 0 <= i < lines(s).len() implies !(#[trigger] lines(s)[i]).contains(
            '\n',
        ) by {
            assert(lines(s)[i] == s);
        }
    }
    if !a.contains('\n') && (a.len() > 0 ==> a.last() != '\r') {
        let x = a + seq!['\n'] + b;
        lemma_first_line(a, b);
        assert(x.take(a.len() as int) =~= a);
        assert(x.skip(a.len() as int + 1) =~= b);
        let e = a + seq!['\r'];
        let y = a + seq!['\r'] + seq!['\n'] + b;
        assert(!e.contains('\n')) by {
            if e.contains('\n') {
                let k = choose|k: int| 0 <= k < e.len() && e[k] == '\n';
                if k < a.len() {
                    assert(a[k] == '\n');
                }
            }
        }
        lemma_first_line(e, b);
        assert(y =~= e + seq!['\n'] + b);
        assert(y.take(e.len() as int) =~= e);
        assert(y.skip(e.len() as int + 1) =~= b);
        assert(e.drop_last() =~= a);
    }
}

proof fn lemma_first_line(a: Seq<char>, b: Seq<char>)
    requires
        !a.contains('\n'),
    ensures
        find(a + seq!['\n'] + b, '\n') == a.len(),
{
    let x = a + seq!['\n'] + b;
    assert forall|i: int| 0 <= i < a.len() implies x[i] != '\n' by {
        assert(x[i] == a[i]);
    }
    crate::text::lemma_find_is(x, '\n', a.len() as int);
}

proof fn lemma_find_space(s: Seq<char>)
    ensures
        0 <= find_space(s) <= s.len(),
        forall|i: int| 0 <= i < find_space(s) ==> !space(#[trigger] s[i]),
        find_space(s) < s.len() ==> space(s[find_space(s)]),
        s.len() > 0 && !space(s[0]) ==> find_space(s) > 0,
    decreases s.len(),
{
    if s.len() > 0 && !space(s[0]) {
        let rest = s.drop_first();
        lemma_find_space(rest);
        assert forall|i: int| 0 <= i < find_space(s) implies !space(#[trigger] s[i]) by {
            if i > 0 {
                assert(rest[i - 1] == s[i]);
            }
        }
    }
}

/// A word is not empty and holds no space; a text of spaces has no words.
pub proof fn law_words(s: Seq<char>)
    ensures
        forall|i: int, k: int|
            0 <= i < words(s).len() && 0 <= k < words(s)[i].len() ==> !space(
                #[trigger] words(s)[i][k],
            ),
        forall|i: int| 0 <= i < words(s).len() ==> (#[trigger] words(s)[i]).len() > 0,
        (forall|k: int| 0 <= k < s.len() ==> space(#[trigger] s[k])) ==> words(s).len() == 0,
    decreases s.len(),
{
    let t = drop_front(s, Class::Space);
    lemma_drop_front(s, Class::Space);
    lemma_find_space(t);
    let n = find_space(t);
    if t.len() > 0 {
        law_words(t.skip(n));
        let w = words(s);
        let rest = words(t.skip(n));
        assert forall|i: int, k: int| 0 <= i < w.len() && 0 <= k < w[i].len() implies !space(
            #[trigger] w[i][k],
        ) by {
            if i == 0 {
                assert(w[0] == t.take(n));
                assert(t.take(n)[k] == t[k]);
            } else {
                assert(w[i] == rest[i - 1]);
            }
        }
        assert forall|i: int| 0 <= i < w.len() implies (#[trigger] w[i]).len() > 0 by {
            if i > 0 {
                assert(w[i] == rest[i - 1]);
            }
        }
        assert(t[0] == s[s.len() - t.len()]);
    }
}

/// Every character of the one kind is replaced, and no other.
pub proof fn law_replaced(s: Seq<char>, from: char, to: char, i: int)
    requires
        0 <= i < s.len(),
    ensures
        replaced(s, from, to).len() == s.len(),
        s[i] == from ==> replaced(s, from, to)[i] == to,
        s[i] != from ==> replaced(s, from, to)[i] == s[i],
{
}

/// The capital letters become small ones, the rest stays.
pub proof fn law_ascii_lower(s: Seq<char>, i: int)
    requires
        0 <= i < s.len(),
    ensures
        ascii_lowered(s).len() == s.len(),
        'A' <= s[i] <= 'Z' ==> 'a' <= ascii_lowered(s)[i] <= 'z' && ascii_lowered(s)[i] as int
            - 'a' as int == s[i] as int - 'A' as int,
        !('A' <= s[i] <= 'Z') ==> ascii_lowered(s)[i] == s[i],
{
}

/// The text that stands for something is replaced by it wherever it stands; a text that
/// does not hold it stays as it is.
pub proof fn law_substituted(a: Seq<char>, from: Seq<char>, to: Seq<char>, b: Seq<char>)
    requires
        from.len() > 0,
        !a.contains(from[0]),
    ensures
        substituted(a + from + b, from, to) == a + to + substituted(b, from, to),
        substituted(a, from, to) == a,
    decreases a.len(),
{
    let s = a + from + b;
    if a.len() == 0 {
        assert(s.take(from.len() as int) =~= from);
        assert(s.skip(from.len() as int) =~= b);
        assert(a + to + substituted(b, from, to) =~= to + substituted(b, from, to));
    } else {
        let rest = a.drop_first();
        assert(!rest.contains(from[0])) by {
            if rest.contains(from[0]) {
                let k = choose|k: int| 0 <= k < rest.len() && rest[k] == from[0];
                assert(a[k + 1] == from[0]);
            }
        }
        law_substituted(rest, from, to, b);
        assert(a[0] != from[0]) by {
            assert(a.contains(a[0]));
        }
        assert(!begins(s, from)) by {
            if begins(s, from) {
                assert(s.take(from.len() as int)[0] == s[0]);
            }
        }
        assert(!begins(a, from)) by {
            if begins(a, from) {
                assert(a.take(from.len() as int)[0] == a[0]);
            }
        }
        assert(s.skip(1) =~= rest + from + b);
        assert(a.skip(1) =~= rest);
        assert(seq![a[0]] + (rest + to + substituted(b, from, to)) =~= a + to + substituted(
            b,
            from,
            to,
        ));
        assert(seq![a[0]] + rest =~= a);
    }
}

/// The digits stand for their values: '0' to '9', and the letters after them.
pub proof fn law_digits(c: char)
    ensures
        '0' <= c <= '9' ==> digit_value(c) == Some((c as int - '0' as int) as nat),
        'a' <= c <= 'f' ==> digit_value(c) == Some((c as int - 'a' as int + 10) as nat),
        'A' <= c <= 'F' ==> digit_value(c) == Some((c as int - 'A' as int + 10) as nat),
        !('0' <= c <= '9') && !('a' <= c <= 'f') && !('A' <= c <= 'F') ==> digit_value(c) is None,
{
}

/// The last digit counts once, the one before it as often as there are digits.
pub proof fn law_digits_value(s: Seq<char>, c: char, radix: nat, v: nat, d: nat)
    requires
        digits_value(s, radix) == Some(v),
        digit_value(c) == Some(d),
    ensures
        d < radix ==> digits_value(s.push(c), radix) == Some(v * radix + d),
        d >= radix ==> digits_value(s.push(c), radix) is None,
        digits_value(Seq::empty(), radix) == Some(0nat),
{
    assert(s.push(c).drop_last() =~= s);
}

/// The digits of a number are those that are read: the last one is what is left when it is
/// divided by ten.
pub proof fn law_decimal(n: nat)
    ensures
        n < 10 ==> decimal(n) == seq![digit_char(n)],
        n >= 10 ==> decimal(n) == decimal(n / 10).push(digit_char(n % 10)),
        n < 10 ==> digit_char(n) as int == '0' as int + n,
{
}

/// A number that is read fits, and has the value of its digits; a "+" before them does not
/// count.
pub proof fn law_number_bounded(s: Seq<char>, radix: nat, max: nat)
    ensures
        number(s, radix, max) matches Some(v) ==> v <= max,
        s.len() > 0 && s[0] != '+' ==> (number(s, radix, max) is Some) == (digits_value(
            s,
            radix,
        ) is Some && digits_value(s, radix)->0 <= max),
        s.len() > 0 && s[0] != '+' && number(s, radix, max) is Some ==> number(s, radix, max)
            == digits_value(s, radix),
        s.len() == 0 ==> number(s, radix, max) is None,
        s.len() > 0 && s[0] != '+' ==> number(seq!['+'] + s, radix, max) == number(s, radix, max),
{
    assert((seq!['+'] + s).skip(1) =~= s);
}

/// Texts are ordered by the first place in which they differ, and one that another starts
/// with comes before it.
pub proof fn law_text_order(head: Seq<char>, a: Seq<char>, b: Seq<char>)
    ensures
        a.len() > 0 && b.len() > 0 && a[0] != b[0] ==> before(head + a, head + b) == (a[0] < b[0]),
        b.len() > 0 ==> before(head, head + b),
        !before(head + b, head),
    decreases head.len(),
{
    if head.len() == 0 {
        assert(head + a =~= a);
        assert(head + b =~= b);
    } else {
        let rest = head.drop_first();
        law_text_order(rest, a, b);
        assert((head + a).drop_first() =~= rest + a);
        assert((head + b).drop_first() =~= rest + b);
    }
}

/// The last place of a character is one that holds it, and none after it does.
pub proof fn law_last_place(s: Seq<char>, c: char)
    ensures
        -1 <= last_place(s, c) < s.len(),
        last_place(s, c) >= 0 ==> s[last_place(s, c)] == c,
        forall|i: int| last_place(s, c) < i < s.len() ==> #[trigger] s[i] != c,
    decreases s.len(),
{
    if s.len() > 0 && s.last() != c {
        law_last_place(s.drop_last(), c);
        assert forall|i: int| last_place(s, c) < i < s.len() implies #[trigger] s[i] != c by {
            if i < s.len() - 1 {
                assert(s.drop_last()[i] == s[i]);
            }
        }
    }
}

/// A word ends at the first space, and the rest follows.
pub proof fn law_first_word(a: Seq<char>, c: char, b: Seq<char>)
    requires
        a.len() > 0,
        forall|k: int| 0 <= k < a.len() ==> !space(#[trigger] a[k]),
        space(c),
    ensures
        words(a + seq![c] + b) == seq![a] + words(seq![c] + b),
        words(seq![c] + b) == words(b),
        words(a) == seq![a],
{
    let s = a + seq![c] + b;
    assert(!space(a[0]));
    assert(s[0] == a[0]);
    assert(drop_front(s, Class::Space) == s);
    lemma_space_at(s, a.len() as int);
    assert(s.take(a.len() as int) =~= a);
    assert(s.skip(a.len() as int) =~= seq![c] + b);
    assert((seq![c] + b).drop_first() =~= b);
    assert(drop_front(a, Class::Space) == a);
    lemma_space_at(a, a.len() as int);
    assert(a.take(a.len() as int) =~= a);
    assert(a.skip(a.len() as int) =~= Seq::empty());
    assert(words(Seq::empty()).len() == 0) by {
        law_words(Seq::empty());
    }
    assert(words(a) =~= seq![a]);
}

proof fn lemma_space_at(s: Seq<char>, n: int)
    requires
        0 <= n <= s.len(),
        forall|k: int| 0 <= k < n ==> !space(#[trigger] s[k]),
        n < s.len() ==> space(s[n]),
    ensures
        find_space(s) == n,
    decreases n,
{
    if n > 0 {
        let rest = s.drop_first();
        assert(!space(s[0]));
        assert forall|k: int| 0 <= k < n - 1 implies !space(#[trigger] rest[k]) by {
            assert(rest[k] == s[k + 1]);
        }
        lemma_space_at(rest, n - 1);
    }
}

} // verus!
