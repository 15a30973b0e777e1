//! Identifiers: the 128 bits of a UUID, drawn at random for each new item.

use vstd::prelude::*;

verus! {

/// Where `id` first stands in a list, or the length of the list.
pub open spec fn place(s: Seq<u128>, id: u128) -> int
    decreases s.len(),
{
    if s.len() == 0 || s[0] == id {
        0
    } else {
        1 + place(s.drop_first(), id)
    }
}

/// `place` is the first place that holds the id.
pub proof fn lemma_place_is(s: Seq<u128>, id: u128, n: int)
    requires
        0 <= n <= s.len(),
        forall|j: int| 0 <= j < n ==> #[trigger] s[j] != id,
        n < s.len() ==> s[n] == id,
    ensures
        place(s, id) == n,
    decreases n,
{
    if n > 0 {
        let rest = s.drop_first();
        assert forall|j: int| 0 <= j < n - 1 implies #[trigger] rest[j] != id by {
            assert(rest[j] == s[j + 1]);
        }
        lemma_place_is(rest, id, n - 1);
    }
}

/// What `place` says: it is in range, nothing before it is the id, and it is
/// the length exactly when the list does not hold the id.
pub proof fn lemma_place(s: Seq<u128>, id: u128)
    ensures
        0 <= place(s, id) <= s.len(),
        forall|j: int| 0 <= j < place(s, id) ==> #[trigger] s[j] != id,
        place(s, id) < s.len() ==> s[place(s, id)] == id,
        s.contains(id) == (place(s, id) < s.len()),
    decreases s.len(),
{
    if s.len() > 0 && s[0] != id {
        let rest = s.drop_first();
        lemma_place(rest, id);
        assert forall|j: int| 0 <= j < place(s, id) implies #[trigger] s[j] != id by {
            if j > 0 {
                assert(rest[j - 1] == s[j]);
            }
        }
        if s.contains(id) {
            let j = choose|j: int| 0 <= j < s.len() && s[j] == id;
            assert(rest[j - 1] == id);
        }
    }
}

/// Looks an id up in a list.
pub fn index_of(list: &Vec<u128>, id: u128) -> (r: usize)
    ensures
        r == place(list@, id),
        r <= list@.len(),
        (r < list@.len()) == list@.contains(id),
{
    let mut i: usize = 0;
    while i < list.len() && list[i] != id
        invariant
            i <= list@.len(),
            forall|j: int| 0 <= j < i ==> #[trigger] list@[j] != id,
        decreases list.len() - i,
    {
        i += 1;
    }
    proof {
        lemma_place_is(list@, id, i as int);
        lemma_place(list@, id);
    }
    i
}

/// Tests whether a list holds an id.
pub fn holds_id(list: &Vec<u128>, id: u128) -> (r: bool)
    ensures
        r == list@.contains(id),
{
    index_of(list, id) < list.len()
}

/// Compares two lists of ids.
pub fn same_lists(a: &Vec<u128>, b: &Vec<u128>) -> (r: bool)
    ensures
        r == (a@ == b@),
{
    if a.len() != b.len() {
        return false;
    }
    let mut i: usize = 0;
    while i < a.len()
        invariant
            i <= a@.len(),
            a@.len() == b@.len(),
            forall|j: int| 0 <= j < i ==> #[trigger] a@[j] == b@[j],
        decreases a.len() - i,
    {
        if a[i] != b[i] {
            return false;
        }
        i += 1;
    }
    assert(a@ =~= b@);
    true
}

/// A list without an id.
pub open spec fn without(s: Seq<u128>, id: u128) -> Seq<u128> {
    s.filter(|x: u128| x != id)
}

/// Takes an id out of a list, wherever it stands.
pub fn drop_id(list: &Vec<u128>, id: u128) -> (r: Vec<u128>)
    ensures
        r@ == without(list@, id),
{
    let mut r: Vec<u128> = Vec::new();
    let mut i: usize = 0;
    proof {
        reveal(Seq::filter);
        assert(list@.take(0) =~= Seq::<u128>::empty());
    }
    while i < list.len()
        invariant
            i <= list@.len(),
            r@ == without(list@.take(i as int), id),
        decreases list.len() - i,
    {
        proof {
            reveal(Seq::filter);
            assert(list@.take(i + 1).drop_last() =~= list@.take(i as int));
        }
        if list[i] != id {
            r.push(list[i]);
        }
        i += 1;
    }
    assert(list@.take(i as int) =~= list@);
    r
}

/// A list without an id holds what it held, that id aside.
pub proof fn lemma_without(s: Seq<u128>, id: u128)
    ensures
        !without(s, id).contains(id),
        forall|x: u128|
            x != id ==> #[trigger] without(s, id).contains(x) == s.contains(x),
        s.no_duplicates() ==> without(s, id).no_duplicates(),
        !s.contains(id) ==> without(s, id) == s,
    decreases s.len(),
{
    reveal(Seq::filter);
    if s.len() > 0 {
        let rest = s.drop_last();
        lemma_without(rest, id);
        assert(s =~= rest.push(s.last()));
        assert forall|x: u128| x != id implies #[trigger] without(s, id).contains(x)
            == s.contains(x) by {
            assert(without(rest, id).contains(x) == rest.contains(x));
            if s.contains(x) {
                let j = choose|j: int| 0 <= j < s.len() && s[j] == x;
                if j < rest.len() {
                    assert(rest[j] == x);
                    let k = choose|k: int|
                        0 <= k < without(rest, id).len() && without(rest, id)[k] == x;
                    assert(without(s, id)[k] == x);
                } else {
                    assert(without(s, id).last() == x);
                }
            }
            if without(s, id).contains(x) {
                let k = choose|k: int| 0 <= k < without(s, id).len() && without(s, id)[k] == x;
                if k < without(rest, id).len() {
                    assert(without(rest, id)[k] == x);
                    let j = choose|j: int| 0 <= j < rest.len() && rest[j] == x;
                    assert(s[j] == x);
                } else {
                    assert(s[s.len() - 1] == x);
                }
            }
        }
        if s.no_duplicates() {
            assert(rest.no_duplicates());
            if s.last() != id {
                assert(!without(rest, id).contains(s.last())) by {
                    if rest.contains(s.last()) {
                        let j = choose|j: int| 0 <= j < rest.len() && rest[j] == s.last();
                        assert(s[j] == s[s.len() - 1]);
                    }
                }
            }
        }
        if !s.contains(id) {
            assert(s[s.len() - 1] != id);
            assert(!rest.contains(id)) by {
                if rest.contains(id) {
                    let j = choose|j: int| 0 <= j < rest.len() && rest[j] == id;
                    assert(s[j] == id);
                }
            }
            assert(without(s, id) =~= s);
        }
    }
}

/// Whether the bits are those of a random identifier: version four, with the
/// variant that all standard identifiers carry.
pub open spec fn is_random(id: u128) -> bool {
    &&& (id >> 76u128) & 0xf == 4
    &&& (id >> 62u128) & 0x3 == 2
}

/// `uuid::Uuid::new_v4`: a fresh random identifier. Its version and variant
/// bits are fixed; nothing can be said of the others.
#[verifier::external_body]
pub(crate) fn fresh_id() -> (r: u128)
    ensures
        is_random(r),
{
    uuid::Uuid::new_v4().as_u128()
}

/// The identifier that a text spells, if it spells one.
pub uninterp spec fn id_from_text(s: Seq<char>) -> Option<u128>;

/// `uuid::Uuid::parse_str`: reads an identifier in any of its usual spellings.
/// Whether the text is one, and which, depends on the text alone; an identifier
/// written in groups of digits is read back.
#[verifier::external_body]
pub(crate) fn parse_id(s: &str) -> (r: Option<u128>)
    ensures
        r == id_from_text(s@),
        forall|id: u128| s@ == #[trigger] id_text(id) ==> r == Some(id),
{
    match uuid::Uuid::parse_str(s) {
        Ok(id) => Some(id.as_u128()),
        Err(_) => None,
    }
}

/// The hexadecimal digit of a value below sixteen, in lower case.
pub open spec fn hex_char(d: int) -> char {
    if d < 10 {
        ((48 + d) as u8) as char
    } else {
        ((87 + d) as u8) as char
    }
}

/// The last `n` hexadecimal digits of a number.
pub open spec fn hex_digits(v: int, n: nat) -> Seq<char>
    decreases n,
{
    if n == 0 {
        Seq::empty()
    } else {
        hex_digits(v / 16, (n - 1) as nat).push(hex_char(v % 16))
    }
}

/// An identifier in its usual spelling: groups of eight, four, four, four and
/// twelve digits.
pub open spec fn id_text(id: u128) -> Seq<char> {
    let d = hex_digits(id as int, 32);
    d.subrange(0, 8) + seq!['-'] + d.subrange(8, 12) + seq!['-'] + d.subrange(12, 16) + seq!['-']
        + d.subrange(16, 20) + seq!['-'] + d.subrange(20, 32)
}

fn push_hex(out: &mut Vec<char>, v: u128, n: u32)
    ensures
        final(out)@ == old(out)@ + hex_digits(v as int, n as nat),
    decreases n,
{
    if n > 0 {
        push_hex(out, v / 16, n - 1);
        let d: u8 = (v % 16) as u8;
        out.push(
            if d < 10 {
                (48 + d) as char
            } else {
                (87 + d) as char
            },
        );
    }
    assert(out@ =~= old(out)@ + hex_digits(v as int, n as nat));
}

proof fn lemma_hex_len(v: int, n: nat)
    ensures
        hex_digits(v, n).len() == n,
    decreases n,
{
    if n > 0 {
        lemma_hex_len(v / 16, (n - 1) as nat);
    }
}

/// Writes an identifier in its usual spelling.
pub fn to_text(id: u128) -> (r: String)
    ensures
        r@ == id_text(id),
{
    let mut d: Vec<char> = Vec::new();
    push_hex(&mut d, id, 32);
    proof {
        lemma_hex_len(id as int, 32);
        assert(d@ =~= hex_digits(id as int, 32));
    }
    let mut r = String::new();
    let mut i: usize = 0;
    while i < 32
        invariant
            i <= 32,
            d@.len() == 32,
            d@ == hex_digits(id as int, 32),
            r@ == id_text(id).take(
                i + (if i > 8 {
                    1int
                } else {
                    0
                }) + (if i > 12 {
                    1int
                } else {
                    0
                }) + (if i > 16 {
                    1int
                } else {
                    0
                }) + (if i > 20 {
                    1int
                } else {
                    0
                }),
            ),
        decreases 32 - i,
    {
        let ghost before = r@;
        if i == 8 || i == 12 || i == 16 || i == 20 {
            r.push('-');
        }
        r.push(d[i]);
        assert(r@ =~= id_text(id).take(r@.len() as int));
        i += 1;
    }
    assert(r@ =~= id_text(id));
    r
}

} // verus!
