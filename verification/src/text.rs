//! Text as sequences of characters: trimming, splitting, searching, ordering
//! and the numbers written in it.
use vstd::prelude::*;

verus! {

/// `String::push`: appends one character.
pub assume_specification[ String::push ](s: &mut String, c: char)
    ensures
        final(s)@ == old(s)@.push(c),
;

/// `String::push_str`: appends a whole string slice.
pub assume_specification[ String::push_str ](s: &mut String, other: &str)
    ensures
        final(s)@ == old(s)@ + other@,
;

/// The characters of a string slice, in order.
pub fn to_chars(s: &str) -> (v: Vec<char>)
    ensures
        v@ == s@,
{
    let mut v: Vec<char> = Vec::new();
    for c in it: s.chars()
        invariant
            it.seq() == s@,
            v@ == s@.take(it.index() as int),
    {
        v.push(c);
        assert(s@.take(it.index() as int + 1) =~= s@.take(it.index() as int).push(c));
    }
    assert(s@.take(s@.len() as int) =~= s@);
    v
}

/// The string made of the given characters.
pub fn from_chars(v: &Vec<char>) -> (s: String)
    ensures
        s@ == v@,
{
    let mut s = String::new();
    let mut i: usize = 0;
    while i < v.len()
        invariant
            i <= v.len(),
            s@ == v@.take(i as int),
        decreases v.len() - i,
    {
        s.push(v[i]);
        assert(v@.take(i as int + 1) =~= v@.take(i as int).push(v@[i as int]));
        i += 1;
    }
    assert(v@.take(v@.len() as int) =~= v@);
    s
}

/// A copy of part of a text.
pub fn slice(v: &Vec<char>, from: usize, to: usize) -> (r: Vec<char>)
    requires
        from <= to <= v@.len(),
    ensures
        r@ == v@.subrange(from as int, to as int),
{
    let mut r: Vec<char> = Vec::new();
    let mut i: usize = from;
    while i < to
        invariant
            from <= i <= to <= v@.len(),
            r@ == v@.subrange(from as int, i as int),
        decreases to - i,
    {
        r.push(v[i]);
        assert(v@.subrange(from as int, i as int + 1) =~= v@.subrange(from as int, i as int).push(
            v@[i as int],
        ));
        i += 1;
    }
    r
}

/// Adds the characters of `b` at the end of `a`.
pub fn append(a: &mut Vec<char>, b: &Vec<char>)
    ensures
        final(a)@ == old(a)@ + b@,
{
    let ghost start = a@;
    let mut i: usize = 0;
    while i < b.len()
        invariant
            i <= b@.len(),
            a@ == start + b@.take(i as int),
        decreases b.len() - i,
    {
        a.push(b[i]);
        assert(b@.take(i as int + 1) =~= b@.take(i as int).push(b@[i as int]));
        i += 1;
    }
    assert(b@.take(b@.len() as int) =~= b@);
}

/// Whether two texts are the same.
pub fn same(a: &Vec<char>, b: &Vec<char>) -> (r: bool)
    ensures
        r == (a@ == b@),
{
    if a.len() != b.len() {
        return false;
    }
    let mut i: usize = 0;
    while i < a.len()
        invariant
            i <= a@.len() == b@.len(),
            forall|j: int| 0 <= j < i ==> a@[j] == b@[j],
        decreases a.len() - i,
    {
        if a[i] != b[i] {
            return false;
        }
        i += 1;
    }
    assert(a@ =~= b@);
    true
}

/// Whether two string slices hold the same text.
pub fn same_str(a: &str, b: &str) -> (r: bool)
    ensures
        r == (a@ == b@),
{
    a.to_owned() == b.to_owned()
}

/// Whether two optional texts are the same.
pub fn same_opt(a: &Option<String>, b: &Option<String>) -> (r: bool)
    ensures
        r == (opt_view(*a) == opt_view(*b)),
{
    match (a, b) {
        (Some(x), Some(y)) => *x == *y,
        (None, None) => true,
        _ => false,
    }
}

/// The text of an optional string.
pub open spec fn opt_view(s: Option<String>) -> Option<Seq<char>> {
    match s {
        Some(t) => Some(t@),
        None => None,
    }
}

/// The texts of a list of strings.
pub open spec fn views(s: Seq<String>) -> Seq<Seq<char>> {
    s.map_values(|t: String| t@)
}

/// The texts of a list of optional strings.
pub open spec fn opt_views(s: Seq<Option<String>>) -> Seq<Option<Seq<char>>> {
    s.map_values(|t: Option<String>| opt_view(t))
}

/// A copy of an optional string.
pub fn clone_opt(s: &Option<String>) -> (r: Option<String>)
    ensures
        opt_view(r) == opt_view(*s),
{
    match s {
        Some(t) => Some(t.clone()),
        None => None,
    }
}

/// A copy of a list of strings.
pub fn clone_all(s: &Vec<String>) -> (r: Vec<String>)
    ensures
        views(r@) == views(s@),
{
    let mut r: Vec<String> = Vec::new();
    let mut i: usize = 0;
    while i < s.len()
        invariant
            i <= s@.len(),
            views(r@) == views(s@).take(i as int),
        decreases s.len() - i,
    {
        let t = s[i].clone();
        let ghost before = views(r@);
        r.push(t);
        assert(views(r@) =~= before.push(t@));
        assert(views(s@).take(i as int + 1) =~= views(s@).take(i as int).push(t@));
        i += 1;
    }
    assert(views(s@).take(i as int) =~= views(s@));
    r
}

/// Whether a list of strings holds the text `t`.
pub fn holds(list: &Vec<String>, t: &str) -> (r: bool)
    ensures
        r == views(list@).contains(t@),
{
    let mut i: usize = 0;
    while i < list.len()
        invariant
            i <= list@.len(),
            forall|j: int| 0 <= j < i ==> views(list@)[j] != t@,
        decreases list.len() - i,
    {
        if same_str(list[i].as_str(), t) {
            assert(views(list@)[i as int] == t@);
            return true;
        }
        i += 1;
    }
    false
}

/// Compares two lists of texts.
pub fn same_lists(a: &Vec<String>, b: &Vec<String>) -> (r: bool)
    ensures
        r == (views(a@) == views(b@)),
{
    if a.len() != b.len() {
        assert(views(a@).len() != views(b@).len());
        return false;
    }
    let mut i: usize = 0;
    while i < a.len()
        invariant
            i <= a@.len(),
            a@.len() == b@.len(),
            forall|j: int| 0 <= j < i ==> (#[trigger] a@[j])@ == b@[j]@,
        decreases a.len() - i,
    {
        if !same_str(a[i].as_str(), b[i].as_str()) {
            assert(views(a@)[i as int] != views(b@)[i as int]);
            return false;
        }
        i += 1;
    }
    assert(views(a@) =~= views(b@));
    true
}

/// A class of characters that trimming removes.
#[derive(Clone, Copy, PartialEq, Eq, Structural)]
pub enum Class {
    /// Unicode white space.
    Space,
    /// Carriage returns and line feeds.
    Eol,
    /// One character.
    Is(char),
}

/// The Unicode property `White_Space`.
pub open spec fn space(c: char) -> bool {
    let n = c as u32;
    ||| 0x9 <= n <= 0xd
    ||| n == 0x20 || n == 0x85 || n == 0xa0 || n == 0x1680
    ||| 0x2000 <= n <= 0x200a
    ||| n == 0x2028 || n == 0x2029 || n == 0x202f || n == 0x205f || n == 0x3000
}

/// Whether `c` is of the class `k`.
pub open spec fn in_class(k: Class, c: char) -> bool {
    match k {
        Class::Space => space(c),
        Class::Eol => c == '\r' || c == '\n',
        Class::Is(x) => c == x,
    }
}

/// Tests a character against a class.
pub fn is_in(k: Class, c: char) -> (r: bool)
    ensures
        r == in_class(k, c),
{
    match k {
        Class::Space => {
            let n = c as u32;
            (0x9 <= n && n <= 0xd) || n == 0x20 || n == 0x85 || n == 0xa0 || n == 0x1680 || (
            0x2000 <= n && n <= 0x200a) || n == 0x2028 || n == 0x2029 || n == 0x202f || n == 0x205f
                || n == 0x3000
        },
        Class::Eol => c == '\r' || c == '\n',
        Class::Is(x) => c == x,
    }
}

/// `s` without the characters of class `k` it starts with.
pub open spec fn drop_front(s: Seq<char>, k: Class) -> Seq<char>
    decreases s.len(),
{
    if s.len() > 0 && in_class(k, s[0]) {
        drop_front(s.drop_first(), k)
    } else {
        s
    }
}

/// `s` without the characters of class `k` it ends with.
pub open spec fn drop_back(s: Seq<char>, k: Class) -> Seq<char>
    decreases s.len(),
{
    if s.len() > 0 && in_class(k, s.last()) {
        drop_back(s.drop_last(), k)
    } else {
        s
    }
}

/// `s` without the white space around it.
pub open spec fn trimmed(s: Seq<char>) -> Seq<char> {
    drop_back(drop_front(s, Class::Space), Class::Space)
}

/// Removes the characters of class `k` at the start.
pub fn trim_front(v: &Vec<char>, k: Class) -> (r: Vec<char>)
    ensures
        r@ == drop_front(v@, k),
{
    let mut i: usize = 0;
    assert(v@.skip(0) =~= v@);
    while i < v.len() && is_in(k, v[i])
        invariant
            i <= v@.len(),
            drop_front(v@, k) == drop_front(v@.skip(i as int), k),
        decreases v.len() - i,
    {
        assert(v@.skip(i as int).drop_first() =~= v@.skip(i as int + 1));
        i += 1;
    }
    assert(v@.skip(i as int) =~= v@.subrange(i as int, v@.len() as int));
    slice(v, i, v.len())
}

/// Removes the characters of class `k` at the end.
pub fn trim_back(v: &Vec<char>, k: Class) -> (r: Vec<char>)
    ensures
        r@ == drop_back(v@, k),
{
    let mut n: usize = v.len();
    assert(v@.take(n as int) =~= v@);
    while n > 0 && is_in(k, v[n - 1])
        invariant
            n <= v@.len(),
            drop_back(v@, k) == drop_back(v@.take(n as int), k),
        decreases n,
    {
        assert(v@.take(n as int).drop_last() =~= v@.take(n as int - 1));
        n -= 1;
    }
    assert(v@.take(n as int) =~= v@.subrange(0, n as int));
    slice(v, 0, n)
}

/// Removes the white space around a text.
pub fn trim(v: &Vec<char>) -> (r: Vec<char>)
    ensures
        r@ == trimmed(v@),
{
    let front = trim_front(v, Class::Space);
    trim_back(&front, Class::Space)
}

/// Removes the white space around a string slice.
pub fn trim_str(s: &str) -> (r: String)
    ensures
        r@ == trimmed(s@),
{
    from_chars(&trim(&to_chars(s)))
}

/// Removing characters from the end leaves a prefix.
pub proof fn lemma_drop_back(s: Seq<char>, k: Class)
    ensures
        drop_back(s, k).len() <= s.len(),
        drop_back(s, k) == s.take(drop_back(s, k).len() as int),
        drop_back(s, k).len() > 0 ==> !in_class(k, drop_back(s, k).last()),
        forall|i: int| drop_back(s, k).len() <= i < s.len() ==> in_class(k, #[trigger] s[i]),
    decreases s.len(),
{
    if s.len() > 0 && in_class(k, s.last()) {
        lemma_drop_back(s.drop_last(), k);
        let n = drop_back(s, k).len() as int;
        assert(s.drop_last().take(n) =~= s.take(n));
        assert forall|i: int| n <= i < s.len() implies in_class(k, #[trigger] s[i]) by {
            if i < s.len() - 1 {
                assert(s.drop_last()[i] == s[i]);
            }
        }
    } else {
        assert(s.take(s.len() as int) =~= s);
    }
}

/// Removing characters from the start leaves a suffix.
pub proof fn lemma_drop_front(s: Seq<char>, k: Class)
    ensures
        drop_front(s, k).len() <= s.len(),
        drop_front(s, k) == s.skip(s.len() - drop_front(s, k).len()),
        drop_front(s, k).len() > 0 ==> !in_class(k, drop_front(s, k)[0]),
    decreases s.len(),
{
    if s.len() > 0 && in_class(k, s[0]) {
        lemma_drop_front(s.drop_first(), k);
        let n = s.len() - drop_front(s, k).len();
        assert(s.drop_first().skip(n - 1) =~= s.skip(n));
    } else {
        assert(s.skip(0) =~= s);
    }
}

/// Where `c` first occurs in `s`, or the length of `s`.
pub open spec fn find(s: Seq<char>, c: char) -> int
    decreases s.len(),
{
    if s.len() == 0 || s[0] == c {
        0
    } else {
        1 + find(s.drop_first(), c)
    }
}

/// What `find` returns is the first place of `c`.
pub proof fn lemma_find(s: Seq<char>, c: char)
    ensures
        0 <= find(s, c) <= s.len(),
        find(s, c) < s.len() ==> s[find(s, c)] == c,
        forall|i: int| 0 <= i < find(s, c) ==> s[i] != c,
        find(s, c) < s.len() <==> s.contains(c),
    decreases s.len(),
{
    if s.len() > 0 && s[0] != c {
        lemma_find(s.drop_first(), c);
        assert forall|i: int| 0 <= i < find(s, c) implies s[i] != c by {
            if i > 0 {
                assert(s.drop_first()[i - 1] == s[i]);
            }
        }
    }
    let n = find(s, c);
    if s.contains(c) && n == s.len() {
        let i = choose|i: int| 0 <= i < s.len() && s[i] == c;
        assert(s[i] != c);
    }
}

/// The first place of `c` decides `find`.
pub proof fn lemma_find_is(s: Seq<char>, c: char, n: int)
    requires
        0 <= n <= s.len(),
        forall|i: int| 0 <= i < n ==> s[i] != c,
        n < s.len() ==> s[n] == c,
    ensures
        find(s, c) == n,
{
    lemma_find(s, c);
}

/// The first place of `c` at or after `from`, or the length.
pub fn find_from(v: &Vec<char>, c: char, from: usize) -> (r: usize)
    requires
        from <= v@.len(),
    ensures
        from <= r <= v@.len(),
        r == from + find(v@.skip(from as int), c),
{
    let mut i: usize = from;
    while i < v.len() && v[i] != c
        invariant
            from <= i <= v@.len(),
            forall|j: int| from <= j < i ==> v@[j] != c,
        decreases v.len() - i,
    {
        i += 1;
    }
    proof {
        lemma_find_is(v@.skip(from as int), c, i - from);
    }
    i
}

/// Whether a text holds the character `c`.
pub fn has_char(v: &Vec<char>, c: char) -> (r: bool)
    ensures
        r == v@.contains(c),
{
    let i = find_from(v, c, 0);
    proof {
        assert(v@.skip(0) =~= v@);
        lemma_find(v@, c);
    }
    i < v.len()
}

/// The parts of `s` between the occurrences of `c`.
pub open spec fn split(s: Seq<char>, c: char) -> Seq<Seq<char>>
    decreases s.len(),
{
    let n = find(s, c);
    if 0 <= n < s.len() {
        seq![s.take(n)] + split(s.skip(n + 1), c)
    } else {
        seq![s]
    }
}

/// Cutting a text always gives at least one part.
pub proof fn lemma_split_some(s: Seq<char>, c: char)
    ensures
        split(s, c).len() > 0,
{
}

/// Cutting at a separator between two texts cuts each of them.
pub proof fn lemma_split_concat(x: Seq<char>, c: char, y: Seq<char>)
    ensures
        split(x + seq![c] + y, c) == split(x, c) + split(y, c),
    decreases x.len(),
{
    let all = x + seq![c] + y;
    lemma_find(x, c);
    let n = find(x, c);
    if n < x.len() {
        lemma_find_is(all, c, n);
        assert(all.take(n) =~= x.take(n));
        assert(all.skip(n + 1) =~= x.skip(n + 1) + seq![c] + y);
        lemma_split_concat(x.skip(n + 1), c, y);
        assert(split(all, c) =~= split(x, c) + split(y, c));
    } else {
        lemma_find_is(all, c, x.len() as int);
        assert(all.take(x.len() as int) =~= x);
        assert(all.skip(x.len() as int + 1) =~= y);
        assert(split(all, c) =~= split(x, c) + split(y, c));
    }
}

/// Parts joined with a separator that none of them holds are cut back.
pub proof fn lemma_split_joined(parts: Seq<Seq<char>>, c: char)
    requires
        parts.len() > 0,
        forall|i: int| 0 <= i < parts.len() ==> !(#[trigger] parts[i]).contains(c),
    ensures
        split(joined(parts, seq![c]), c) == parts,
    decreases parts.len(),
{
    let last = parts.last();
    lemma_find(last, c);
    assert(split(last, c) =~= seq![last]);
    if parts.len() == 1 {
        assert(parts =~= seq![last]);
    } else {
        lemma_split_joined(parts.drop_last(), c);
        lemma_split_concat(joined(parts.drop_last(), seq![c]), c, last);
        assert(parts =~= parts.drop_last() + seq![last]);
    }
}

/// The texts of a list of character lists.
pub open spec fn char_views(s: Seq<Vec<char>>) -> Seq<Seq<char>> {
    s.map_values(|t: Vec<char>| t@)
}

/// Cuts a text at every `c`.
pub fn split_at(v: &Vec<char>, c: char) -> (r: Vec<Vec<char>>)
    ensures
        char_views(r@) == split(v@, c),
        r@.len() > 0,
{
    let mut r: Vec<Vec<char>> = Vec::new();
    let mut from: usize = 0;
    proof {
        assert(v@.skip(0) =~= v@);
        assert(char_views(r@) + split(v@, c) =~= split(v@, c));
    }
    loop
        invariant
            from <= v@.len(),
            char_views(r@) + split(v@.skip(from as int), c) == split(v@, c),
        decreases v@.len() - from,
    {
        let n = find_from(v, c, from);
        let part = slice(v, from, n);
        let ghost rest = v@.skip(from as int);
        let ghost before = char_views(r@);
        proof {
            lemma_find(rest, c);
            assert(part@ =~= rest.take(n - from));
        }
        r.push(part);
        assert(char_views(r@) =~= before.push(part@));
        if n == v.len() {
            proof {
                assert(part@ =~= rest);
                assert(char_views(r@) =~= before + split(rest, c));
            }
            return r;
        }
        proof {
            assert(rest.skip(n - from + 1) =~= v@.skip(n + 1));
            assert(split(rest, c) == seq![rest.take(n - from)] + split(rest.skip(n - from + 1), c));
            assert(before + (seq![part@] + split(v@.skip(n + 1), c)) =~= char_views(r@) + split(
                v@.skip(n + 1),
                c,
            ));
        }
        from = n + 1;
    }
}

/// The texts of a list joined with a separator between them.
pub open spec fn joined(parts: Seq<Seq<char>>, sep: Seq<char>) -> Seq<char>
    decreases parts.len(),
{
    if parts.len() == 0 {
        Seq::empty()
    } else if parts.len() == 1 {
        parts[0]
    } else {
        joined(parts.drop_last(), sep) + sep + parts.last()
    }
}

/// Joins texts with a separator between them.
pub fn join_with(parts: &Vec<String>, sep: &str) -> (r: String)
    ensures
        r@ == joined(views(parts@), sep@),
{
    let mut r = String::new();
    let mut i: usize = 0;
    while i < parts.len()
        invariant
            i <= parts@.len(),
            r@ == joined(views(parts@).take(i as int), sep@),
        decreases parts.len() - i,
    {
        let ghost all = views(parts@);
        if i > 0 {
            r.push_str(sep);
        }
        r.push_str(parts[i].as_str());
        assert(all.take(i as int + 1).drop_last() =~= all.take(i as int));
        i += 1;
    }
    assert(views(parts@).take(i as int) =~= views(parts@));
    r
}

/// A line without the carriage return it ends with.
pub open spec fn chomp(s: Seq<char>) -> Seq<char> {
    if s.len() > 0 && s.last() == '\r' {
        s.drop_last()
    } else {
        s
    }
}

/// The lines of a text: cut at line feeds, a carriage return before one
/// belongs to the line ending, a final line ending opens no further line.
pub open spec fn lines(s: Seq<char>) -> Seq<Seq<char>>
    decreases s.len(),
{
    let n = find(s, '\n');
    if 0 <= n < s.len() {
        seq![chomp(s.take(n))] + lines(s.skip(n + 1))
    } else if s.len() > 0 {
        seq![s]
    } else {
        Seq::empty()
    }
}

/// Cuts a text into its lines.
pub fn split_lines(v: &Vec<char>) -> (r: Vec<Vec<char>>)
    ensures
        char_views(r@) == lines(v@),
{
    let mut r: Vec<Vec<char>> = Vec::new();
    let mut from: usize = 0;
    proof {
        assert(v@.skip(0) =~= v@);
        assert(char_views(r@) + lines(v@) =~= lines(v@));
    }
    while from < v.len()
        invariant
            from <= v@.len(),
            char_views(r@) + lines(v@.skip(from as int)) == lines(v@),
        decreases v@.len() - from,
    {
        let n = find_from(v, '\n', from);
        let ghost rest = v@.skip(from as int);
        let ghost before = char_views(r@);
        proof {
            lemma_find(rest, '\n');
        }
        if n == v.len() {
            let part = slice(v, from, n);
            r.push(part);
            proof {
                assert(part@ =~= rest);
                assert(char_views(r@) =~= before + seq![rest]);
                assert(v@.skip(n as int) =~= Seq::<char>::empty());
                assert(char_views(r@) + lines(v@.skip(n as int)) =~= before + lines(rest));
            }
            from = n;
        } else {
            let end = if n > from && v[n - 1] == '\r' {
                n - 1
            } else {
                n
            };
            let part = slice(v, from, end);
            r.push(part);
            proof {
                assert(chomp(rest.take(n - from)) =~= part@);
                assert(rest.skip(n - from + 1) =~= v@.skip(n + 1));
                assert(char_views(r@) =~= before.push(part@));
                assert(before + (seq![part@] + lines(v@.skip(n + 1))) =~= char_views(r@) + lines(
                    v@.skip(n + 1),
                ));
            }
            from = n + 1;
        }
    }
    proof {
        assert(v@.skip(from as int) =~= Seq::<char>::empty());
        assert(char_views(r@) + lines(v@.skip(from as int)) =~= char_views(r@));
    }
    r
}

/// Whether `w` occurs in `s`.
pub open spec fn has_text(s: Seq<char>, w: Seq<char>) -> bool {
    exists|i: int| 0 <= i && i + w.len() <= s.len() && #[trigger] s.subrange(i, i + w.len()) == w
}

/// Whether `s` starts with `w`.
pub open spec fn begins(s: Seq<char>, w: Seq<char>) -> bool {
    w.len() <= s.len() && s.take(w.len() as int) == w
}

/// Whether `s` ends with `w`.
pub open spec fn ends(s: Seq<char>, w: Seq<char>) -> bool {
    w.len() <= s.len() && s.skip(s.len() - w.len()) == w
}

/// Whether `w` stands at `at` in a text.
pub fn stands_at(v: &Vec<char>, w: &Vec<char>, at: usize) -> (r: bool)
    requires
        at + w@.len() <= v@.len(),
    ensures
        r == (v@.subrange(at as int, at + w@.len()) == w@),
{
    let mut i: usize = 0;
    while i < w.len()
        invariant
            i <= w@.len(),
            at + w@.len() <= v.len(),
            forall|j: int| 0 <= j < i ==> v@[at + j] == w@[j],
        decreases w.len() - i,
    {
        if v[at + i] != w[i] {
            assert(v@.subrange(at as int, at + w@.len())[i as int] != w@[i as int]);
            return false;
        }
        i += 1;
    }
    assert(v@.subrange(at as int, at + w@.len()) =~= w@);
    true
}

/// Searches a text for another.
pub fn contains_text(v: &Vec<char>, w: &Vec<char>) -> (r: bool)
    ensures
        r == has_text(v@, w@),
{
    if w.len() > v.len() {
        return false;
    }
    let last = v.len() - w.len();
    let mut i: usize = 0;
    while i <= last
        invariant
            i <= last + 1,
            last + w@.len() == v@.len(),
            forall|j: int| 0 <= j < i ==> #[trigger] v@.subrange(j, j + w@.len()) != w@,
        decreases last + 1 - i,
    {
        if stands_at(v, w, i) {
            return true;
        }
        if i == last {
            return false;
        }
        i += 1;
    }
    false
}

/// Tests how a text begins.
pub fn starts_with(v: &Vec<char>, w: &str) -> (r: bool)
    ensures
        r == begins(v@, w@),
{
    let w = to_chars(w);
    if w.len() > v.len() {
        return false;
    }
    assert(v@.take(w@.len() as int) =~= v@.subrange(0, w@.len() as int));
    stands_at(v, &w, 0)
}

/// Tests how a text ends.
pub fn ends_with(v: &Vec<char>, w: &str) -> (r: bool)
    ensures
        r == ends(v@, w@),
{
    let w = to_chars(w);
    if w.len() > v.len() {
        return false;
    }
    let at = v.len() - w.len();
    assert(v@.skip(at as int) =~= v@.subrange(at as int, v@.len() as int));
    stands_at(v, &w, at)
}

/// `s` with every `from` replaced by `to`.
pub open spec fn replaced(s: Seq<char>, from: char, to: char) -> Seq<char> {
    s.map_values(|c: char| if c == from { to } else { c })
}

/// Replaces a character everywhere in a text.
pub fn replace_char(v: &Vec<char>, from: char, to: char) -> (r: Vec<char>)
    ensures
        r@ == replaced(v@, from, to),
{
    let mut r: Vec<char> = Vec::new();
    let mut i: usize = 0;
    while i < v.len()
        invariant
            i <= v@.len(),
            r@ == replaced(v@, from, to).take(i as int),
        decreases v.len() - i,
    {
        r.push(if v[i] == from { to } else { v[i] });
        assert(replaced(v@, from, to).take(i as int + 1) =~= replaced(v@, from, to).take(
            i as int,
        ).push(r@.last()));
        i += 1;
    }
    assert(replaced(v@, from, to).take(i as int) =~= replaced(v@, from, to));
    r
}

/// The text of `s` in lower case, as Unicode defines it.
pub uninterp spec fn lowercase(s: Seq<char>) -> Seq<char>;

/// `str::to_lowercase`: the lower case equivalent of a text. Which characters
/// that is stays with the Unicode tables; the result depends on the text alone.
#[verifier::external_body]
pub(crate) fn to_lowercase(s: &str) -> (r: String)
    ensures
        r@ == lowercase(s@),
{
    s.to_lowercase()
}

/// The upper case equivalent of a character, which may be several characters.
pub uninterp spec fn uppercase(c: char) -> Seq<char>;

/// `char::to_uppercase`: the upper case equivalent of a character, from the
/// Unicode tables; it depends on the character alone.
#[verifier::external_body]
pub(crate) fn to_uppercase(c: char) -> (r: Vec<char>)
    ensures
        r@ == uppercase(c),
{
    c.to_uppercase().collect()
}

/// A character with the letters A to Z in lower case.
pub open spec fn ascii_lower(c: char) -> char {
    if 'A' <= c <= 'Z' {
        ((c as u8 + 32) as u8) as char
    } else {
        c
    }
}

/// A text with the letters A to Z in lower case.
pub open spec fn ascii_lowered(s: Seq<char>) -> Seq<char> {
    s.map_values(|c: char| ascii_lower(c))
}

/// Puts the letters A to Z of a text in lower case.
pub fn to_ascii_lowercase(v: &Vec<char>) -> (r: Vec<char>)
    ensures
        r@ == ascii_lowered(v@),
{
    let mut r: Vec<char> = Vec::new();
    let mut i: usize = 0;
    while i < v.len()
        invariant
            i <= v@.len(),
            r@ == ascii_lowered(v@).take(i as int),
        decreases v.len() - i,
    {
        let c = v[i];
        let l = if 'A' <= c && c <= 'Z' {
            (c as u8 + 32) as char
        } else {
            c
        };
        r.push(l);
        assert(ascii_lowered(v@).take(i as int + 1) =~= ascii_lowered(v@).take(i as int).push(l));
        i += 1;
    }
    assert(ascii_lowered(v@).take(i as int) =~= ascii_lowered(v@));
    r
}

/// The digit `d`, up to nine.
pub open spec fn digit_char(d: nat) -> char {
    ((48 + d) as u8) as char
}

/// A number in base `radix`, which is at most ten.
pub open spec fn numeral(n: nat, radix: nat) -> Seq<char>
    decreases n,
{
    if radix < 2 || n < radix {
        seq![digit_char(n)]
    } else {
        proof {
            assert(n / radix < n) by (nonlinear_arith)
                requires
                    n >= radix,
                    radix >= 2,
            ;
        }
        numeral(n / radix, radix).push(digit_char(n % radix))
    }
}

/// Writes a number in base `radix`.
pub fn push_numeral(out: &mut String, n: u64, radix: u64)
    requires
        2 <= radix <= 10,
    ensures
        final(out)@ == old(out)@ + numeral(n as nat, radix as nat),
    decreases n,
{
    if n >= radix {
        proof {
            assert(n / radix < n) by (nonlinear_arith)
                requires
                    n > 0,
                    radix >= 2,
            ;
        }
        push_numeral(out, n / radix, radix);
    }
    let ghost before = out@;
    let d: u64 = n % radix;
    proof {
        assert(0 <= n % radix < radix) by (nonlinear_arith)
            requires
                radix >= 2,
        ;
        if n < radix {
            assert(n % radix == n) by (nonlinear_arith)
                requires
                    0 <= n < radix,
            ;
        }
    }
    out.push((48 + d as u8) as char);
    assert(out@ =~= old(out)@ + numeral(n as nat, radix as nat));
}

/// A number in base ten.
pub open spec fn decimal(n: nat) -> Seq<char> {
    numeral(n, 10)
}

/// Writes a number in base ten.
pub fn to_decimal(n: u64) -> (r: String)
    ensures
        r@ == decimal(n as nat),
{
    let mut r = String::new();
    push_numeral(&mut r, n, 10);
    r
}

/// A text with every occurrence of another replaced, from the left.
pub open spec fn substituted(s: Seq<char>, from: Seq<char>, to: Seq<char>) -> Seq<char>
    decreases s.len(),
{
    if s.len() == 0 || from.len() == 0 {
        s
    } else if begins(s, from) {
        to + substituted(s.skip(from.len() as int), from, to)
    } else {
        seq![s[0]] + substituted(s.skip(1), from, to)
    }
}

/// Replaces every occurrence of a text, which is not empty.
pub fn substitute(s: &str, from: &str, to: &str) -> (r: String)
    requires
        from@.len() > 0,
    ensures
        r@ == substituted(s@, from@, to@),
{
    let v = to_chars(s);
    let w = to_chars(from);
    let by = to_chars(to);
    let mut out: Vec<char> = Vec::new();
    let mut i: usize = 0;
    assert(v@.skip(0) =~= v@);
    assert(out@ + substituted(v@, from@, to@) =~= substituted(v@, from@, to@));
    while i < v.len()
        invariant
            i <= v@.len(),
            w@ == from@,
            by@ == to@,
            from@.len() > 0,
            out@ + substituted(v@.skip(i as int), from@, to@) == substituted(v@, from@, to@),
        decreases v.len() - i,
    {
        let ghost rest = v@.skip(i as int);
        let ghost before = out@;
        if w.len() <= v.len() - i && stands_at(&v, &w, i) {
            proof {
                assert(begins(rest, from@)) by {
                    assert(rest.take(from@.len() as int) =~= v@.subrange(
                        i as int,
                        i + from@.len(),
                    ));
                }
                assert(rest.skip(from@.len() as int) =~= v@.skip(i + from@.len()));
            }
            append(&mut out, &by);
            i = i + w.len();
            assert(out@ + substituted(v@.skip(i as int), from@, to@) =~= before + substituted(
                rest,
                from@,
                to@,
            ));
        } else {
            proof {
                if begins(rest, from@) {
                    assert(rest.take(from@.len() as int) =~= v@.subrange(
                        i as int,
                        i + from@.len(),
                    ));
                }
                assert(rest.skip(1) =~= v@.skip(i + 1));
            }
            out.push(v[i]);
            i += 1;
            assert(out@ + substituted(v@.skip(i as int), from@, to@) =~= before + substituted(
                rest,
                from@,
                to@,
            ));
        }
    }
    assert(v@.skip(i as int) =~= Seq::empty());
    assert(out@ =~= substituted(v@, from@, to@));
    from_chars(&out)
}

/// The value of a digit, up to base sixteen.
pub open spec fn digit_value(c: char) -> Option<nat> {
    if '0' <= c <= '9' {
        Some((c as nat - 48) as nat)
    } else if 'a' <= c <= 'f' {
        Some((c as nat - 87) as nat)
    } else if 'A' <= c <= 'F' {
        Some((c as nat - 55) as nat)
    } else {
        None
    }
}

/// The value of a row of digits, if each is one of the base.
pub open spec fn digits_value(s: Seq<char>, radix: nat) -> Option<nat>
    decreases s.len(),
{
    if s.len() == 0 {
        Some(0)
    } else {
        match (digits_value(s.drop_last(), radix), digit_value(s.last())) {
            (Some(v), Some(d)) => if d < radix {
                Some(v * radix + d)
            } else {
                None
            },
            _ => None,
        }
    }
}

/// A number written in base ten is read back as it was.
pub proof fn law_decimal_read_back(n: nat)
    ensures
        digits_value(decimal(n), 10) == Some(n),
        decimal(n).len() > 0,
    decreases n,
{
    let d = digit_char(n % 10);
    assert(d as int == 48 + n % 10);
    if n < 10 {
        assert(decimal(n).drop_last() =~= Seq::<char>::empty());
        assert(decimal(n)[0] == digit_char(n));
        assert(digits_value(Seq::<char>::empty(), 10) == Some(0nat));
        assert(digit_value(decimal(n).last()) == Some(n));
    } else {
        law_decimal_read_back(n / 10);
        let head = decimal(n / 10);
        assert(decimal(n) == head.push(d));
        assert(decimal(n).drop_last() =~= head);
        assert(n / 10 * 10 + n % 10 == n);
        assert(digit_value(d) == Some((n % 10) as nat));
    }
}

/// The unsigned number that a text spells: digits of the base, after one plus
/// sign at most, up to `max`.
pub open spec fn number(s: Seq<char>, radix: nat, max: nat) -> Option<nat> {
    let d = if s.len() > 0 && s[0] == '+' {
        s.skip(1)
    } else {
        s
    };
    if d.len() == 0 {
        None
    } else {
        match digits_value(d, radix) {
            Some(v) => if v <= max {
                Some(v)
            } else {
                None
            },
            None => None,
        }
    }
}

/// Reads an unsigned number.
pub fn parse_number(v: &Vec<char>, radix: u32, max: u32) -> (r: Option<u32>)
    requires
        2 <= radix <= 16,
    ensures
        match r {
            Some(n) => number(v@, radix as nat, max as nat) == Some(n as nat),
            None => number(v@, radix as nat, max as nat) is None,
        },
{
    let from: usize = if v.len() > 0 && v[0] == '+' {
        1
    } else {
        0
    };
    let ghost d = v@.skip(from as int);
    assert(v@.skip(0) =~= v@);
    if v.len() == from {
        return None;
    }
    let mut i: usize = from;
    let mut n: u64 = 0;
    let mut over = false;
    assert(d.take(0) =~= Seq::<char>::empty());
    while i < v.len()
        invariant
            from <= i <= v@.len(),
            2 <= radix <= 16,
            d == v@.skip(from as int),
            d.len() > 0,
            d == (if v@.len() > 0 && v@[0] == '+' {
                v@.skip(1)
            } else {
                v@
            }),
            !over ==> n <= max && digits_value(d.take(i - from), radix as nat) == Some(n as nat),
            over ==> (digits_value(d.take(i - from), radix as nat) matches Some(x) && x > max),
        decreases v.len() - i,
    {
        let c = v[i];
        proof {
            assert(d.take(i + 1 - from).drop_last() =~= d.take(i - from));
            assert(d.take(i + 1 - from).last() == c);
        }
        let digit: u64 = if '0' <= c && c <= '9' {
            (c as u32 - 48) as u64
        } else if 'a' <= c && c <= 'f' {
            (c as u32 - 87) as u64
        } else if 'A' <= c && c <= 'F' {
            (c as u32 - 55) as u64
        } else {
            proof {
                lemma_bad_digits(d, radix as nat, i + 1 - from);
            }
            return None;
        };
        if digit >= radix as u64 {
            proof {
                lemma_bad_digits(d, radix as nat, i + 1 - from);
            }
            return None;
        }
        if over {
            proof {
                let x = digits_value(d.take(i - from), radix as nat)->0;
                assert(x * radix + digit > max) by (nonlinear_arith)
                    requires
                        x > max,
                        radix >= 2,
                        digit >= 0,
                        max >= 0,
                ;
            }
        } else {
            assert(n * radix <= 0xffff_ffff * 16) by (nonlinear_arith)
                requires
                    n <= 0xffff_ffff,
                    radix <= 16,
            ;
            n = n * radix as u64 + digit;
            if n > max as u64 {
                over = true;
            }
        }
        i += 1;
    }
    assert(d.take(i - from) =~= d);
    if over {
        None
    } else {
        Some(n as u32)
    }
}

/// A bad digit anywhere spoils the whole row.
proof fn lemma_bad_digits(s: Seq<char>, radix: nat, n: int)
    requires
        0 <= n <= s.len(),
        digits_value(s.take(n), radix) is None,
    ensures
        digits_value(s, radix) is None,
    decreases s.len() - n,
{
    if n < s.len() {
        assert(s.take(n + 1).drop_last() =~= s.take(n));
        lemma_bad_digits(s, radix, n + 1);
    } else {
        assert(s.take(n) =~= s);
    }
}

/// Whether `a` comes before `b`, by the order of their characters.
pub open spec fn before(a: Seq<char>, b: Seq<char>) -> bool
    decreases a.len(),
{
    if b.len() == 0 {
        false
    } else if a.len() == 0 {
        true
    } else if a[0] != b[0] {
        a[0] < b[0]
    } else {
        before(a.drop_first(), b.drop_first())
    }
}

/// The order of texts is total and strict.
pub proof fn lemma_before_total(a: Seq<char>, b: Seq<char>)
    ensures
        !before(a, a),
        before(a, b) ==> !before(b, a),
        !before(a, b) && !before(b, a) ==> a == b,
    decreases a.len(),
{
    if a.len() > 0 {
        lemma_before_total(a.drop_first(), a.drop_first());
    }
    if a.len() > 0 && b.len() > 0 && a[0] == b[0] {
        lemma_before_total(a.drop_first(), b.drop_first());
        if !before(a, b) && !before(b, a) {
            assert(a =~= seq![a[0]] + a.drop_first());
            assert(b =~= seq![b[0]] + b.drop_first());
        }
    }
    if a.len() == 0 && b.len() == 0 {
        assert(a =~= b);
    }
}

/// The order of texts is transitive.
pub proof fn lemma_before_trans(a: Seq<char>, b: Seq<char>, c: Seq<char>)
    requires
        before(a, b),
        before(b, c),
    ensures
        before(a, c),
    decreases a.len(),
{
    if a.len() > 0 && b.len() > 0 && c.len() > 0 && a[0] == b[0] && b[0] == c[0] {
        lemma_before_trans(a.drop_first(), b.drop_first(), c.drop_first());
    }
}

/// Compares two texts by the order of their characters.
pub fn comes_before(a: &Vec<char>, b: &Vec<char>) -> (r: bool)
    ensures
        r == before(a@, b@),
{
    let mut i: usize = 0;
    assert(a@.skip(0) =~= a@);
    assert(b@.skip(0) =~= b@);
    while i < a.len() && i < b.len() && a[i] == b[i]
        invariant
            i <= a@.len(),
            i <= b@.len(),
            before(a@, b@) == before(a@.skip(i as int), b@.skip(i as int)),
        decreases a.len() - i,
    {
        assert(a@.skip(i as int).drop_first() =~= a@.skip(i as int + 1));
        assert(b@.skip(i as int).drop_first() =~= b@.skip(i as int + 1));
        i += 1;
    }
    if i >= b.len() {
        false
    } else if i >= a.len() {
        true
    } else {
        a[i] < b[i]
    }
}

/// Where `c` last occurs in `s`, or -1.
pub open spec fn last_place(s: Seq<char>, c: char) -> int
    decreases s.len(),
{
    if s.len() == 0 {
        -1
    } else if s.last() == c {
        s.len() - 1
    } else {
        last_place(s.drop_last(), c)
    }
}

/// The last place of `c` decides `last_place`.
pub proof fn lemma_last_place_is(s: Seq<char>, c: char, n: int)
    requires
        -1 <= n < s.len(),
        n >= 0 ==> s[n] == c,
        forall|j: int| n < j < s.len() ==> #[trigger] s[j] != c,
    ensures
        last_place(s, c) == n,
    decreases s.len(),
{
    if s.len() > 0 {
        if n < s.len() - 1 {
            let rest = s.drop_last();
            assert(s[s.len() - 1] != c);
            assert forall|j: int| n < j < rest.len() implies #[trigger] rest[j] != c by {
                assert(rest[j] == s[j]);
            }
            lemma_last_place_is(rest, c, n);
        }
    }
}

/// Finds the last `c` of a text, or gives its length where there is none.
pub fn find_last(v: &Vec<char>, c: char) -> (r: usize)
    ensures
        r <= v@.len(),
        last_place(v@, c) < v@.len(),
        r == if last_place(v@, c) < 0 {
            v@.len() as int
        } else {
            last_place(v@, c)
        },
{
    let mut i: usize = v.len();
    while i > 0
        invariant
            i <= v@.len(),
            forall|j: int| i <= j < v@.len() ==> #[trigger] v@[j] != c,
        decreases i,
    {
        i -= 1;
        if v[i] == c {
            proof {
                lemma_last_place_is(v@, c, i as int);
            }
            return i;
        }
    }
    proof {
        lemma_last_place_is(v@, c, -1);
    }
    v.len()
}

/// Where white space first occurs in `s`, or the length of `s`.
pub open spec fn find_space(s: Seq<char>) -> int
    decreases s.len(),
{
    if s.len() == 0 || space(s[0]) {
        0
    } else {
        1 + find_space(s.drop_first())
    }
}

/// The words of a text: its parts without white space.
pub open spec fn words(s: Seq<char>) -> Seq<Seq<char>>
    decreases s.len(),
    via words_decreases
{
    let t = drop_front(s, Class::Space);
    let n = find_space(t);
    if t.len() == 0 {
        Seq::empty()
    } else {
        seq![t.take(n)] + words(t.skip(n))
    }
}

#[via_fn]
proof fn words_decreases(s: Seq<char>) {
    let t = drop_front(s, Class::Space);
    lemma_drop_front(s, Class::Space);
    lemma_find_space(t);
}

proof fn lemma_find_space(s: Seq<char>)
    ensures
        0 <= find_space(s) <= s.len(),
        find_space(s) < s.len() ==> space(s[find_space(s)]),
        forall|j: int| 0 <= j < find_space(s) ==> !space(#[trigger] s[j]),
        s.len() > 0 && !space(s[0]) ==> find_space(s) > 0,
    decreases s.len(),
{
    if s.len() > 0 && !space(s[0]) {
        let rest = s.drop_first();
        lemma_find_space(rest);
        assert forall|j: int| 0 <= j < find_space(s) implies !space(#[trigger] s[j]) by {
            if j > 0 {
                assert(rest[j - 1] == s[j]);
            }
        }
    }
}

proof fn lemma_find_space_is(s: Seq<char>, n: int)
    requires
        0 <= n <= s.len(),
        forall|j: int| 0 <= j < n ==> !space(#[trigger] s[j]),
        n < s.len() ==> space(s[n]),
    ensures
        find_space(s) == n,
    decreases n,
{
    if n > 0 {
        let rest = s.drop_first();
        assert(!space(s[0]));
        assert forall|j: int| 0 <= j < n - 1 implies !space(#[trigger] rest[j]) by {
            assert(rest[j] == s[j + 1]);
        }
        lemma_find_space_is(rest, n - 1);
    }
}

/// Cuts a text into its words.
pub fn split_words(v: &Vec<char>) -> (r: Vec<Vec<char>>)
    ensures
        char_views(r@) == words(v@),
{
    let mut r: Vec<Vec<char>> = Vec::new();
    let mut rest = slice(v, 0, v.len());
    assert(rest@ =~= v@);
    assert(char_views(r@) + words(rest@) =~= words(v@));
    loop
        invariant
            char_views(r@) + words(rest@) == words(v@),
        decreases rest@.len(),
    {
        let t = trim_front(&rest, Class::Space);
        proof {
            lemma_drop_front(rest@, Class::Space);
            lemma_find_space(t@);
        }
        if t.len() == 0 {
            assert(char_views(r@) + words(rest@) =~= char_views(r@));
            return r;
        }
        let mut n: usize = 0;
        while n < t.len() && !is_in(Class::Space, t[n])
            invariant
                n <= t@.len(),
                forall|j: int| 0 <= j < n ==> !space(#[trigger] t@[j]),
            decreases t.len() - n,
        {
            n += 1;
        }
        proof {
            lemma_find_space_is(t@, n as int);
        }
        let word = slice(&t, 0, n);
        let ghost before = char_views(r@);
        r.push(word);
        let next = slice(&t, n, t.len());
        proof {
            assert(word@ =~= t@.take(n as int));
            assert(next@ =~= t@.skip(n as int));
            assert(char_views(r@) =~= before.push(word@));
            assert(before + (seq![word@] + words(next@)) =~= char_views(r@) + words(next@));
        }
        rest = next;
    }
}

} // verus!
