//! Text: the string operations that the rest of the library is stated in.
//!
//! A string is modelled by the sequence of its characters. Everything here says
//! what it returns over that sequence.

use vstd::prelude::*;
use vstd::string::*;
use vstd::utf8::*;

verus! {

// ---------------------------------------------------------------------------
// What the standard library decides by the Unicode tables
// ---------------------------------------------------------------------------

/// Whether a character has the Unicode `White_Space` property.
pub open spec fn white_space(c: char) -> bool {
    ||| '\u{9}' <= c <= '\u{d}'
    ||| c == ' '
    ||| c == '\u{85}'
    ||| c == '\u{a0}'
    ||| c == '\u{1680}'
    ||| '\u{2000}' <= c <= '\u{200a}'
    ||| c == '\u{2028}'
    ||| c == '\u{2029}'
    ||| c == '\u{202f}'
    ||| c == '\u{205f}'
    ||| c == '\u{3000}'
}

/// The Unicode lowercase of a text.
pub uninterp spec fn lowercase(s: Seq<char>) -> Seq<char>;

/// `char::is_whitespace` of the standard library: whether the character has the
/// Unicode `White_Space` property.
pub assume_specification[ char::is_whitespace ](c: char) -> (r: bool)
    ensures
        r == white_space(c),
;

/// `str::to_lowercase` of the standard library: the answer depends on the text
/// alone. The mapping itself is left to Unicode.
pub assume_specification[ str::to_lowercase ](s: &str) -> (r: String)
    ensures
        r@ == lowercase(s@),
;

/// `String::push` of the standard library puts one character at the end.
pub assume_specification[ String::push ](s: &mut String, c: char)
    ensures
        final(s)@ == old(s)@.push(c),
;

/// `String::pop` of the standard library takes the last character off and
/// returns it, or returns `None` on an empty string.
pub assume_specification[ String::pop ](s: &mut String) -> (r: Option<char>)
    ensures
        old(s)@.len() == 0 ==> r is None && final(s)@ == old(s)@,
        old(s)@.len() > 0 ==> r == Some(old(s)@.last()) && final(s)@ == old(s)@.drop_last(),
;

// ---------------------------------------------------------------------------
// Strings as vectors of characters
// ---------------------------------------------------------------------------

/// The characters of a string.
pub fn chars_of(s: &str) -> (r: Vec<char>)
    ensures
        r@ == s@,
{
    let mut r: Vec<char> = Vec::new();
    for c in it: s.chars()
        invariant
            it.seq() == s@,
            r@ == s@.take(it.index() as int),
    {
        r.push(c);
    }
    assert(s@.take(s@.len() as int) == s@);
    r
}

/// The string with the given characters.
pub fn string_of(cs: &[char]) -> (r: String)
    ensures
        r@ == cs@,
{
    let mut r = String::new();
    let mut i: usize = 0;
    while i < cs.len()
        invariant
            i <= cs@.len(),
            r@ == cs@.take(i as int),
        decreases cs@.len() - i,
    {
        r.push(cs[i]);
        i = i + 1;
    }
    r
}

/// Whether two strings have the same characters.
pub fn same_text(a: &str, b: &str) -> (r: bool)
    ensures
        r == (a@ == b@),
{
    a.to_owned() == b.to_owned()
}

// ---------------------------------------------------------------------------
// Order
// ---------------------------------------------------------------------------

/// Byte strings in lexicographic order.
pub open spec fn bytes_le(a: Seq<u8>, b: Seq<u8>) -> bool
    decreases a.len(),
{
    if a.len() == 0 {
        true
    } else if b.len() == 0 {
        false
    } else if a[0] != b[0] {
        a[0] < b[0]
    } else {
        bytes_le(a.drop_first(), b.drop_first())
    }
}

/// Names in the order in which they are listed: by the bytes of their UTF-8 form.
pub open spec fn name_le(a: Seq<char>, b: Seq<char>) -> bool {
    bytes_le(encode_utf8(a), encode_utf8(b))
}

/// Whether `a` comes before `b` in the order of names, or is the same name.
pub fn text_le(a: &str, b: &str) -> (r: bool)
    ensures
        r == name_le(a@, b@),
{
    let x = a.as_bytes();
    let y = b.as_bytes();
    let mut i: usize = 0;
    assert(x@.skip(0) == x@);
    assert(y@.skip(0) == y@);
    while i < x.len() && i < y.len()
        invariant
            i <= x@.len(),
            i <= y@.len(),
            x@ == encode_utf8(a@),
            y@ == encode_utf8(b@),
            name_le(a@, b@) == bytes_le(x@.skip(i as int), y@.skip(i as int)),
        decreases x@.len() - i,
    {
        let ghost xs = x@.skip(i as int);
        let ghost ys = y@.skip(i as int);
        assert(xs[0] == x@[i as int] && ys[0] == y@[i as int]);
        assert(xs.drop_first() == x@.skip(i + 1));
        assert(ys.drop_first() == y@.skip(i + 1));
        if x[i] != y[i] {
            return x[i] < y[i];
        }
        i = i + 1;
    }
    i == x.len()
}

/// The order of byte strings is reflexive.
pub proof fn lemma_bytes_le_reflexive(a: Seq<u8>)
    ensures
        bytes_le(a, a),
    decreases a.len(),
{
    if a.len() > 0 {
        lemma_bytes_le_reflexive(a.drop_first());
    }
}

/// Of two byte strings one comes first.
pub proof fn lemma_bytes_le_total(a: Seq<u8>, b: Seq<u8>)
    ensures
        bytes_le(a, b) || bytes_le(b, a),
    decreases a.len(),
{
    if a.len() > 0 && b.len() > 0 {
        lemma_bytes_le_total(a.drop_first(), b.drop_first());
    }
}

/// The order of byte strings is transitive.
pub proof fn lemma_bytes_le_transitive(a: Seq<u8>, b: Seq<u8>, c: Seq<u8>)
    requires
        bytes_le(a, b),
        bytes_le(b, c),
    ensures
        bytes_le(a, c),
    decreases a.len(),
{
    if a.len() > 0 && b.len() > 0 && c.len() > 0 && a[0] == b[0] && b[0] == c[0] {
        lemma_bytes_le_transitive(a.drop_first(), b.drop_first(), c.drop_first());
    }
}

/// Two byte strings that each come before the other are the same.
pub proof fn lemma_bytes_le_antisymmetric(a: Seq<u8>, b: Seq<u8>)
    requires
        bytes_le(a, b),
        bytes_le(b, a),
    ensures
        a == b,
    decreases a.len(),
{
    if a.len() > 0 && b.len() > 0 {
        lemma_bytes_le_antisymmetric(a.drop_first(), b.drop_first());
        assert(a == seq![a[0]] + a.drop_first());
        assert(b == seq![b[0]] + b.drop_first());
    } else {
        assert(a == b);
    }
}

/// The order of names is a total order: reflexive, total, transitive, and two
/// names that each come before the other are one name.
pub proof fn lemma_name_order(a: Seq<char>, b: Seq<char>, c: Seq<char>)
    ensures
        name_le(a, a),
        name_le(a, b) || name_le(b, a),
        name_le(a, b) && name_le(b, c) ==> name_le(a, c),
        name_le(a, b) && name_le(b, a) ==> a == b,
{
    lemma_bytes_le_reflexive(encode_utf8(a));
    lemma_bytes_le_total(encode_utf8(a), encode_utf8(b));
    if name_le(a, b) && name_le(b, c) {
        lemma_bytes_le_transitive(encode_utf8(a), encode_utf8(b), encode_utf8(c));
    }
    if name_le(a, b) && name_le(b, a) {
        lemma_bytes_le_antisymmetric(encode_utf8(a), encode_utf8(b));
        encode_utf8_decode_utf8(a);
        encode_utf8_decode_utf8(b);
    }
}

/// Whether entry `i` of a list of names is listed before entry `j`: by name, and
/// among equal names by place.
pub open spec fn listed_before(names: Seq<Seq<char>>, i: int, j: int) -> bool {
    name_le(names[i], names[j]) && (names[i] == names[j] ==> i < j)
}

/// `order` lists every place of `names` once, by name, equal names by place.
pub open spec fn is_listing(names: Seq<Seq<char>>, order: Seq<int>) -> bool {
    &&& order.len() == names.len()
    &&& forall|k: int| 0 <= k < order.len() ==> 0 <= #[trigger] order[k] < names.len()
    &&& forall|k: int, l: int|
        0 <= k < l < order.len() ==> listed_before(names, #[trigger] order[k], #[trigger] order[l])
}

/// The places of a vector of indices.
pub open spec fn places(v: Seq<usize>) -> Seq<int> {
    Seq::new(v.len(), |k: int| v[k] as int)
}

/// The texts of a list of strings.
pub open spec fn texts(v: Seq<String>) -> Seq<Seq<char>> {
    Seq::new(v.len(), |k: int| v[k]@)
}

/// The listing of a list of names.
pub open spec fn listing_of(names: Seq<Seq<char>>) -> Seq<int> {
    choose|order: Seq<int>| is_listing(names, order)
}

/// Every place occurs in a listing.
pub proof fn lemma_listing_complete(names: Seq<Seq<char>>, order: Seq<int>, i: int)
    requires
        is_listing(names, order),
        0 <= i < names.len(),
    ensures
        order.contains(i),
{
    assert forall|k: int, l: int| 0 <= k < order.len() && 0 <= l < order.len() && k != l implies order[k]
        != order[l] by {
        if k < l {
            assert(listed_before(names, order[k], order[l]));
        } else {
            assert(listed_before(names, order[l], order[k]));
        }
    }
    order.unique_seq_to_set();
    let all = vstd::set_lib::set_int_range(0, names.len() as int);
    vstd::set_lib::lemma_int_range(0, names.len() as int);
    assert forall|x: int| order.to_set().contains(x) implies all.contains(x) by {
        let k = choose|k: int| 0 <= k < order.len() && order[k] == x;
        assert(0 <= order[k] < names.len());
    }
    vstd::set_lib::lemma_subset_equality(order.to_set(), all);
    assert(all.contains(i));
}

/// Every list of names has a listing.
pub proof fn lemma_listing_exists(names: Seq<Seq<char>>)
    ensures
        exists|order: Seq<int>| is_listing(names, order),
    decreases names.len(),
{
    if names.len() == 0 {
        assert(is_listing(names, Seq::empty()));
    } else {
        let n = names.len() - 1;
        let shorter = names.drop_last();
        lemma_listing_exists(shorter);
        let before = choose|order: Seq<int>| is_listing(shorter, order);
        let at = lemma_insertion_place(names, before, n);
        let order = before.insert(at, n);
        assert forall|k: int| 0 <= k < order.len() implies 0 <= #[trigger] order[k] < names.len() by {
            if k < at {
                assert(0 <= before[k] < shorter.len());
            } else if k > at {
                assert(0 <= before[k - 1] < shorter.len());
            }
        }
        assert forall|k: int, l: int| 0 <= k < l < order.len() implies listed_before(
            names,
            #[trigger] order[k],
            #[trigger] order[l],
        ) by {
            let k0 = if k < at { k } else { k - 1 };
            let l0 = if l < at { l } else { l - 1 };
            if k != at && l != at {
                assert(0 <= before[k0] < shorter.len() && 0 <= before[l0] < shorter.len());
                assert(listed_before(shorter, before[k0], before[l0]));
            } else if k == at {
                assert(0 <= before[l0] < shorter.len());
            } else {
                assert(0 <= before[k0] < shorter.len());
            }
        }
        assert(is_listing(names, order));
    }
}

/// The place where the last of some names goes in the listing of the others.
proof fn lemma_insertion_place(names: Seq<Seq<char>>, before: Seq<int>, n: int) -> (at: int)
    requires
        0 <= n == names.len() - 1,
        is_listing(names.drop_last(), before),
    ensures
        0 <= at <= before.len(),
        forall|k: int| 0 <= k < at ==> listed_before(names, #[trigger] before[k], n),
        forall|k: int| at <= k < before.len() ==> listed_before(names, n, #[trigger] before[k]),
{
    lemma_insertion_search(names, before, n, before.len() as int)
}

proof fn lemma_insertion_search(names: Seq<Seq<char>>, before: Seq<int>, n: int, from: int) -> (at: int)
    requires
        0 <= n == names.len() - 1,
        is_listing(names.drop_last(), before),
        0 <= from <= before.len(),
        forall|k: int| from <= k < before.len() ==> listed_before(names, n, #[trigger] before[k]),
    ensures
        0 <= at <= before.len(),
        forall|k: int| 0 <= k < at ==> listed_before(names, #[trigger] before[k], n),
        forall|k: int| at <= k < before.len() ==> listed_before(names, n, #[trigger] before[k]),
    decreases from,
{
    let shorter = names.drop_last();
    if from == 0 {
        0
    } else {
        let last = before[from - 1];
        assert(0 <= last < shorter.len());
        lemma_name_order(names[last], names[n], names[n]);
        if name_le(names[last], names[n]) {
            assert forall|k: int| 0 <= k < from implies listed_before(names, #[trigger] before[k], n) by {
                assert(0 <= before[k] < shorter.len());
                if k < from - 1 {
                    assert(listed_before(shorter, before[k], before[from - 1]));
                    lemma_name_order(names[before[k]], names[last], names[n]);
                }
            }
            from
        } else {
            lemma_insertion_search(names, before, n, from - 1)
        }
    }
}

/// A list of names has one listing only.
pub proof fn lemma_listing_unique(names: Seq<Seq<char>>, a: Seq<int>, b: Seq<int>)
    requires
        is_listing(names, a),
        is_listing(names, b),
    ensures
        a == b,
{
    assert forall|n: int| 0 <= n <= names.len() implies a.take(n) == b.take(n) by {
        lemma_listing_prefix(names, a, b, n as nat);
    }
    assert(a.take(names.len() as int) == a);
    assert(b.take(names.len() as int) == b);
}

proof fn lemma_listing_prefix(names: Seq<Seq<char>>, a: Seq<int>, b: Seq<int>, n: nat)
    requires
        is_listing(names, a),
        is_listing(names, b),
        n <= names.len(),
    ensures
        a.take(n as int) == b.take(n as int),
    decreases n,
{
    if n > 0 {
        let k = n - 1;
        lemma_listing_prefix(names, a, b, k as nat);
        assert forall|i: int| 0 <= i < k implies a[i] == b[i] by {
            assert(a.take(k)[i] == b.take(k)[i]);
        }
        if a[k] != b[k] {
            lemma_listing_complete(names, b, a[k]);
            lemma_listing_complete(names, a, b[k]);
            let j = choose|j: int| 0 <= j < b.len() && b[j] == a[k];
            let l = choose|l: int| 0 <= l < a.len() && a[l] == b[k];
            if j < k {
                assert(listed_before(names, a[j], a[k]));
            } else if l < k {
                assert(listed_before(names, b[l], b[k]));
            } else {
                assert(listed_before(names, b[k], b[j]));
                assert(listed_before(names, a[k], a[l]));
                lemma_name_order(names[a[k]], names[b[k]], names[a[k]]);
            }
            assert(false);
        }
        assert(a.take(n as int) == a.take(k).push(a[k]));
        assert(b.take(n as int) == b.take(k).push(b[k]));
    }
}

/// The order in which the entries of a list of names are listed.
pub fn listing(names: &Vec<String>) -> (order: Vec<usize>)
    ensures
        is_listing(texts(names@), places(order@)),
        places(order@) == listing_of(texts(names@)),
{
    let ghost ts = texts(names@);
    let mut order: Vec<usize> = Vec::new();
    let mut n: usize = 0;
    while n < names.len()
        invariant
            n <= names@.len(),
            ts == texts(names@),
            order@.len() == n,
            forall|k: int| 0 <= k < n ==> #[trigger] order@[k] < n,
            forall|k: int, l: int|
                0 <= k < l < n ==> listed_before(ts, #[trigger] order@[k] as int, #[trigger] order@[l] as int),
        decreases names@.len() - n,
    {
        let mut at: usize = n;
        while at > 0 && !text_le(names[order[at - 1]].as_str(), names[n].as_str())
            invariant
                at <= n,
                n < names@.len(),
                ts == texts(names@),
                order@.len() == n,
                forall|k: int| 0 <= k < n ==> #[trigger] order@[k] < n,
                forall|k: int|
                    at <= k < n ==> listed_before(ts, n as int, #[trigger] order@[k] as int),
            decreases at,
        {
            at = at - 1;
            proof {
                lemma_name_order(ts[order@[at as int] as int], ts[n as int], ts[n as int]);
            }
        }
        let ghost before = order@;
        proof {
            assert forall|k: int| 0 <= k < at implies listed_before(ts, #[trigger] before[k] as int, n as int) by {
                let last = before[at - 1] as int;
                assert(name_le(ts[last], ts[n as int]));
                if k < at - 1 {
                    assert(listed_before(ts, before[k] as int, before[at - 1] as int));
                    lemma_name_order(ts[before[k] as int], ts[last], ts[n as int]);
                }
            }
        }
        order.insert(at, n);
        proof {
            assert forall|k: int, l: int| 0 <= k < l < n + 1 implies listed_before(
                ts,
                #[trigger] order@[k] as int,
                #[trigger] order@[l] as int,
            ) by {
                let k0 = if k < at { k } else { k - 1 };
                let l0 = if l < at { l } else { l - 1 };
                if k != at && l != at {
                    assert(order@[k] == before[k0] && order@[l] == before[l0]);
                } else if k == at {
                    assert(order@[l] == before[l0]);
                } else {
                    assert(order@[k] == before[k0]);
                }
            }
            assert forall|k: int| 0 <= k < n + 1 implies #[trigger] order@[k] < n + 1 by {
                let k0 = if k < at { k } else { k - 1 };
                if k != at {
                    assert(order@[k] == before[k0]);
                }
            }
        }
        n = n + 1;
    }
    proof {
        let ps = places(order@);
        assert forall|k: int| 0 <= k < ps.len() implies 0 <= #[trigger] ps[k] < ts.len() by {
            assert(order@[k] < n);
        }
        assert forall|k: int, l: int| 0 <= k < l < ps.len() implies listed_before(
            ts,
            #[trigger] ps[k],
            #[trigger] ps[l],
        ) by {
            assert(listed_before(ts, order@[k] as int, order@[l] as int));
        }
        assert(is_listing(ts, ps));
        lemma_listing_unique(ts, ps, listing_of(ts));
    }
    order
}

// ---------------------------------------------------------------------------
// Searching and cutting
// ---------------------------------------------------------------------------

/// Whether `needle` stands in `s` from place `i` on.
pub open spec fn stands_at(s: Seq<char>, needle: Seq<char>, i: int) -> bool {
    0 <= i && i + needle.len() <= s.len() && s.subrange(i, i + needle.len()) == needle
}

/// Whether `needle` stands somewhere in `s`.
pub open spec fn has_text(s: Seq<char>, needle: Seq<char>) -> bool {
    exists|i: int| stands_at(s, needle, i)
}

/// Whether `needle` stands in `s` from place `i` on.
pub fn stands(s: &[char], needle: &[char], i: usize) -> (r: bool)
    requires
        i <= s@.len(),
    ensures
        r == stands_at(s@, needle@, i as int),
{
    if s.len() - i < needle.len() {
        return false;
    }
    let mut k: usize = 0;
    while k < needle.len()
        invariant
            i + needle@.len() <= s@.len() <= usize::MAX,
            k <= needle@.len(),
            forall|j: int| 0 <= j < k ==> s@[i + j] == needle@[j],
        decreases needle@.len() - k,
    {
        if s[i + k] != needle[k] {
            assert(s@.subrange(i as int, i + needle@.len())[k as int] != needle@[k as int]);
            return false;
        }
        k = k + 1;
    }
    assert(s@.subrange(i as int, i + needle@.len()) =~= needle@);
    true
}

/// Whether `needle` stands somewhere in `s`.
pub fn contains(s: &[char], needle: &[char]) -> (r: bool)
    ensures
        r == has_text(s@, needle@),
{
    let mut i: usize = 0;
    loop
        invariant
            i <= s@.len(),
            forall|j: int| 0 <= j < i ==> !stands_at(s@, needle@, j),
        decreases s@.len() - i,
    {
        if stands(s, needle, i) {
            return true;
        }
        if i == s.len() {
            return false;
        }
        i = i + 1;
    }
}

/// The place of the first `c` in `s`, or the length of `s` if there is none.
pub open spec fn place_of(s: Seq<char>, c: char) -> int
    decreases s.len(),
{
    if s.len() == 0 || s[0] == c {
        0
    } else {
        1 + place_of(s.drop_first(), c)
    }
}

/// `place_of` is the first place, and the length where there is none.
pub proof fn lemma_place_of(s: Seq<char>, c: char)
    ensures
        0 <= place_of(s, c) <= s.len(),
        forall|j: int| 0 <= j < place_of(s, c) ==> s[j] != c,
        place_of(s, c) < s.len() ==> s[place_of(s, c)] == c,
    decreases s.len(),
{
    if s.len() > 0 && s[0] != c {
        lemma_place_of(s.drop_first(), c);
        assert forall|j: int| 0 <= j < place_of(s, c) implies s[j] != c by {
            if j > 0 {
                assert(s.drop_first()[j - 1] == s[j]);
            }
        }
    }
}

/// Finds the first `c`.
pub fn find_char(s: &[char], c: char) -> (r: Option<usize>)
    ensures
        r is None <==> !s@.contains(c),
        r matches Some(i) ==> i == place_of(s@, c) && i < s@.len() && s@[i as int] == c,
{
    let mut i: usize = 0;
    proof {
        lemma_place_of(s@, c);
    }
    while i < s.len()
        invariant
            i <= s@.len(),
            0 <= place_of(s@, c) <= s@.len(),
            place_of(s@, c) < s@.len() ==> s@[place_of(s@, c)] == c,
            forall|j: int| 0 <= j < place_of(s@, c) ==> s@[j] != c,
            forall|j: int| 0 <= j < i ==> s@[j] != c,
        decreases s@.len() - i,
    {
        if s[i] == c {
            return Some(i);
        }
        i = i + 1;
    }
    None
}

/// A text without the white space at its start.
pub open spec fn trim_start(s: Seq<char>) -> Seq<char>
    decreases s.len(),
{
    if s.len() > 0 && white_space(s[0]) {
        trim_start(s.drop_first())
    } else {
        s
    }
}

/// A text without the white space at its end.
pub open spec fn trim_end(s: Seq<char>) -> Seq<char>
    decreases s.len(),
{
    if s.len() > 0 && white_space(s.last()) {
        trim_end(s.drop_last())
    } else {
        s
    }
}

/// A text without the white space around it.
pub open spec fn trimmed(s: Seq<char>) -> Seq<char> {
    trim_end(trim_start(s))
}

/// A copy of a part of a text.
pub fn part(s: &[char], from: usize, to: usize) -> (r: Vec<char>)
    requires
        from <= to <= s@.len(),
    ensures
        r@ == s@.subrange(from as int, to as int),
{
    let mut r: Vec<char> = Vec::new();
    let mut i: usize = from;
    while i < to
        invariant
            from <= i <= to <= s@.len(),
            r@ == s@.subrange(from as int, i as int),
        decreases to - i,
    {
        r.push(s[i]);
        i = i + 1;
        assert(s@.subrange(from as int, i as int) == s@.subrange(from as int, i - 1).push(s@[i - 1]));
    }
    r
}

/// Removes the white space around a text.
pub fn trim(s: &[char]) -> (r: Vec<char>)
    ensures
        r@ == trimmed(s@),
{
    let mut from: usize = 0;
    assert(s@.skip(0) == s@);
    while from < s.len() && s[from].is_whitespace()
        invariant
            from <= s@.len(),
            trim_start(s@) == trim_start(s@.skip(from as int)),
        decreases s@.len() - from,
    {
        assert(s@.skip(from as int).drop_first() == s@.skip(from + 1));
        from = from + 1;
    }
    assert(trim_start(s@) == s@.skip(from as int));
    let mut to: usize = s.len();
    assert(s@.subrange(from as int, to as int) == s@.skip(from as int));
    while to > from && s[to - 1].is_whitespace()
        invariant
            from <= to <= s@.len(),
            trimmed(s@) == trim_end(s@.subrange(from as int, to as int)),
        decreases to - from,
    {
        assert(s@.subrange(from as int, to as int).drop_last() == s@.subrange(from as int, to - 1));
        assert(s@.subrange(from as int, to as int).last() == s@[to - 1]);
        to = to - 1;
    }
    proof {
        let rest = s@.subrange(from as int, to as int);
        if rest.len() > 0 {
            assert(rest.last() == s@[to - 1]);
        }
    }
    part(s, from, to)
}

/// A text with every occurrence of `needle` taken out, searched from the left;
/// occurrences do not overlap. An empty `needle` takes nothing out.
pub open spec fn without(s: Seq<char>, needle: Seq<char>) -> Seq<char>
    decreases s.len(),
{
    if needle.len() == 0 || s.len() == 0 {
        s
    } else if stands_at(s, needle, 0) {
        without(s.skip(needle.len() as int), needle)
    } else {
        seq![s[0]] + without(s.drop_first(), needle)
    }
}

/// Takes every occurrence of `needle` out of a text.
pub fn remove_all(s: &[char], needle: &[char]) -> (r: Vec<char>)
    ensures
        r@ == without(s@, needle@),
{
    let mut r: Vec<char> = Vec::new();
    if needle.len() == 0 {
        return part(s, 0, s.len());
    }
    let mut i: usize = 0;
    assert(s@.skip(0) == s@);
    while i < s.len()
        invariant
            i <= s@.len(),
            needle@.len() > 0,
            without(s@, needle@) == r@ + without(s@.skip(i as int), needle@),
        decreases s@.len() - i,
    {
        let ghost rest = s@.skip(i as int);
        assert(stands_at(rest, needle@, 0) == stands_at(s@, needle@, i as int)) by {
            if i + needle@.len() <= s@.len() {
                assert(rest.subrange(0, needle@.len() as int) == s@.subrange(i as int, i + needle@.len()));
            }
        }
        if stands(s, needle, i) {
            assert(rest.skip(needle@.len() as int) == s@.skip(i + needle@.len()));
            i = i + needle.len();
        } else {
            assert(rest.drop_first() == s@.skip(i + 1));
            let ghost before = r@;
            r.push(s[i]);
            assert(before + (seq![s@[i as int]] + without(s@.skip(i + 1), needle@)) == r@ + without(
                s@.skip(i + 1),
                needle@,
            ));
            i = i + 1;
        }
    }
    assert(r@ + without(s@.skip(i as int), needle@) == r@);
    r
}

/// The words of a text: the longest stretches without white space.
pub open spec fn words(s: Seq<char>) -> Seq<Seq<char>>
    decreases s.len(),
{
    let t = trim_start(s);
    if t.len() == 0 || t.len() > s.len() {
        Seq::empty()
    } else {
        let n = word_length(t);
        if n == 0 || n > t.len() {
            Seq::empty()
        } else {
            seq![t.take(n as int)] + words(t.skip(n as int))
        }
    }
}

/// How many characters stand before the first white space.
pub open spec fn word_length(s: Seq<char>) -> nat
    decreases s.len(),
{
    if s.len() == 0 || white_space(s[0]) {
        0
    } else {
        1 + word_length(s.drop_first())
    }
}

/// Splits a text into its words.
pub fn split_words(s: &[char]) -> (r: Vec<String>)
    ensures
        texts(r@) == words(s@),
{
    let mut r: Vec<String> = Vec::new();
    let mut i: usize = 0;
    assert(s@.skip(0) == s@);
    loop
        invariant
            i <= s@.len(),
            words(s@) == texts(r@) + words(s@.skip(i as int)),
        ensures
            words(s@) == texts(r@),
        decreases s@.len() - i,
    {
        let mut from: usize = i;
        while from < s.len() && s[from].is_whitespace()
            invariant
                i <= from <= s@.len(),
                trim_start(s@.skip(i as int)) == trim_start(s@.skip(from as int)),
            decreases s@.len() - from,
        {
            assert(s@.skip(from as int).drop_first() == s@.skip(from + 1));
            from = from + 1;
        }
        let ghost t = s@.skip(from as int);
        assert(trim_start(s@.skip(i as int)) == t);
        if from == s.len() {
            assert(words(s@.skip(i as int)) == Seq::<Seq<char>>::empty());
            assert(texts(r@) + Seq::<Seq<char>>::empty() == texts(r@));
            break;
        }
        let mut to: usize = from;
        while to < s.len() && !s[to].is_whitespace()
            invariant
                from <= to <= s@.len(),
                t == s@.skip(from as int),
                word_length(t) == (to - from) + word_length(s@.skip(to as int)),
            decreases s@.len() - to,
        {
            assert(s@.skip(to as int).drop_first() == s@.skip(to + 1));
            to = to + 1;
        }
        assert(word_length(t) == to - from);
        let ghost before = r@;
        let word = part(s, from, to);
        assert(t.take(to - from) == s@.subrange(from as int, to as int));
        assert(t.skip(to - from) == s@.skip(to as int));
        r.push(string_of(word.as_slice()));
        proof {
            let w = s@.subrange(from as int, to as int);
            assert(texts(r@) == texts(before).push(w));
            assert(words(s@.skip(i as int)) == seq![w] + words(s@.skip(to as int)));
            assert(texts(before) + (seq![w] + words(s@.skip(to as int))) == texts(r@) + words(
                s@.skip(to as int),
            ));
        }
        i = to;
    }
    r
}

// ---------------------------------------------------------------------------
// Laws
// ---------------------------------------------------------------------------

proof fn lemma_trim_start(s: Seq<char>) -> (i: int)
    ensures
        0 <= i <= s.len(),
        trim_start(s) == s.skip(i),
        forall|k: int| 0 <= k < i ==> white_space(s[k]),
        i < s.len() ==> !white_space(s[i]),
    decreases s.len(),
{
    if s.len() > 0 && white_space(s[0]) {
        let i = lemma_trim_start(s.drop_first());
        assert(s.drop_first().skip(i) =~= s.skip(i + 1));
        assert forall|k: int| 0 <= k < i + 1 implies white_space(s[k]) by {
            if k > 0 {
                assert(s.drop_first()[k - 1] == s[k]);
            }
        }
        if i + 1 < s.len() {
            assert(s.drop_first()[i] == s[i + 1]);
        }
        i + 1
    } else {
        assert(s.skip(0) =~= s);
        0
    }
}

proof fn lemma_trim_end(s: Seq<char>) -> (j: int)
    ensures
        0 <= j <= s.len(),
        trim_end(s) == s.take(j),
        forall|k: int| j <= k < s.len() ==> white_space(s[k]),
        j > 0 ==> !white_space(s[j - 1]),
    decreases s.len(),
{
    if s.len() > 0 && white_space(s.last()) {
        let j = lemma_trim_end(s.drop_last());
        assert(s.drop_last().take(j) =~= s.take(j));
        assert forall|k: int| j <= k < s.len() implies white_space(s[k]) by {
            if k < s.len() - 1 {
                assert(s.drop_last()[k] == s[k]);
            }
        }
        if j > 0 {
            assert(s.drop_last()[j - 1] == s[j - 1]);
        }
        j
    } else {
        assert(s.take(s.len() as int) =~= s);
        s.len() as int
    }
}

/// Trimming takes white space off both ends of a text and nothing else: what is left is one
/// stretch of the text that neither begins nor ends with white space, and all around it is white
/// space. The places where the stretch begins and ends are returned.
pub proof fn law_trimming_takes_only_white_space(s: Seq<char>) -> (r: (int, int))
    ensures
        0 <= r.0 <= r.1 <= s.len(),
        trimmed(s) == s.subrange(r.0, r.1),
        forall|k: int| 0 <= k < r.0 ==> white_space(s[k]),
        forall|k: int| r.1 <= k < s.len() ==> white_space(s[k]),
        r.0 < r.1 ==> !white_space(s[r.0]) && !white_space(s[r.1 - 1]),
{
    let i = lemma_trim_start(s);
    let t = trim_start(s);
    let j = lemma_trim_end(t);
    assert(t.take(j) =~= s.subrange(i, i + j));
    assert forall|k: int| i + j <= k < s.len() implies white_space(s[k]) by {
        assert(t[k - i] == s[k]);
    }
    if j > 0 {
        assert(t[j - 1] == s[i + j - 1]);
        if i < s.len() {
            assert(t[0] == s[i]);
        }
    }
    (i, i + j)
}

/// Nothing is left to trim off a text that was trimmed.
pub proof fn law_trimming_twice_is_trimming_once(s: Seq<char>)
    ensures
        trimmed(trimmed(s)) == trimmed(s),
{
    let (i, j) = law_trimming_takes_only_white_space(s);
    let t = trimmed(s);
    let (a, b) = law_trimming_takes_only_white_space(t);
    if i < j {
        assert(t[0] == s[i]);
        assert(t[t.len() - 1] == s[j - 1]);
        assert(a == 0);
        assert(b == t.len());
    }
    assert(t.subrange(a, b) =~= t);
}

/// What is taken out of a text is taken out where it first stands, and again in what follows; a
/// text in which it does not stand stays as it is.
pub proof fn law_taking_out(before: Seq<char>, needle: Seq<char>, after: Seq<char>)
    requires
        needle.len() > 0,
        forall|i: int|
            0 <= i < before.len() ==> !(#[trigger] (before + needle + after).subrange(
                i,
                i + needle.len(),
            ) == needle),
    ensures
        without(before + needle + after, needle) == before + without(after, needle),
    decreases before.len(),
{
    let s = before + needle + after;
    if before.len() == 0 {
        assert(s.subrange(0, needle.len() as int) =~= needle);
        assert(s.skip(needle.len() as int) =~= after);
        assert(before + without(after, needle) =~= without(after, needle));
    } else {
        let rest = before.drop_first();
        let t = rest + needle + after;
        assert(s.drop_first() =~= t);
        assert(s.subrange(0, 0int + needle.len()) != needle);
        assert forall|i: int| 0 <= i < rest.len() implies !(#[trigger] t.subrange(i, i + needle.len())
            == needle) by {
            assert(t.subrange(i, i + needle.len()) =~= s.subrange(i + 1, i + 1 + needle.len()));
        }
        law_taking_out(rest, needle, after);
        assert(seq![s[0]] + (rest + without(after, needle)) =~= before + without(after, needle));
    }
}

/// A text in which something does not stand stays as it is when that is taken out.
pub proof fn law_nothing_to_take_out(s: Seq<char>, needle: Seq<char>)
    requires
        forall|i: int| 0 <= i <= s.len() - needle.len() ==> !(#[trigger] s.subrange(i, i + needle.len()) == needle),
    ensures
        without(s, needle) == s,
    decreases s.len(),
{
    if needle.len() > 0 && s.len() > 0 {
        let t = s.drop_first();
        if needle.len() <= s.len() {
            assert(s.subrange(0, 0int + needle.len()) != needle);
        }
        assert forall|i: int| 0 <= i <= t.len() - needle.len() implies !(#[trigger] t.subrange(
            i,
            i + needle.len(),
        ) == needle) by {
            assert(t.subrange(i, i + needle.len()) =~= s.subrange(i + 1, i + 1 + needle.len()));
        }
        law_nothing_to_take_out(t, needle);
        assert(seq![s[0]] + t =~= s);
    }
}

proof fn lemma_word_length(s: Seq<char>)
    ensures
        word_length(s) <= s.len(),
        forall|k: int| 0 <= k < word_length(s) ==> !white_space(s[k]),
        word_length(s) < s.len() ==> white_space(s[word_length(s) as int]),
    decreases s.len(),
{
    if s.len() > 0 && !white_space(s[0]) {
        let t = s.drop_first();
        lemma_word_length(t);
        assert forall|k: int| 0 <= k < word_length(s) implies !white_space(s[k]) by {
            if k > 0 {
                assert(t[k - 1] == s[k]);
            }
        }
        if word_length(s) < s.len() {
            assert(t[word_length(t) as int] == s[word_length(s) as int]);
        }
    }
}

proof fn lemma_first_word(s: Seq<char>)
    ensures
        s.len() == 0 ==> words(s) == Seq::<Seq<char>>::empty(),
        s.len() > 0 && white_space(s[0]) ==> words(s) == words(s.drop_first()),
        s.len() > 0 && !white_space(s[0]) ==> words(s) == seq![s.take(word_length(s) as int)] + words(
            s.skip(word_length(s) as int),
        ),
{
    let i = lemma_trim_start(s);
    if s.len() > 0 {
        lemma_word_length(trim_start(s));
        if white_space(s[0]) {
            let d = s.drop_first();
            let k = lemma_trim_start(d);
            assert(trim_start(s) == trim_start(d));
        } else {
            assert(trim_start(s) == s);
        }
    }
}

/// White space stands between words: a text that is cut at white space has the words of both
/// parts. A text without white space is one word.
pub proof fn law_words_are_parted_by_white_space(a: Seq<char>, space: char, b: Seq<char>)
    requires
        white_space(space),
    ensures
        words(a.push(space) + b) == words(a) + words(b),
    decreases a.len(),
{
    let s = a.push(space) + b;
    lemma_first_word(s);
    lemma_first_word(a);
    if a.len() == 0 {
        assert(s.drop_first() =~= b);
        assert(words(a) + words(b) =~= words(b));
    } else if white_space(a[0]) {
        assert(s.drop_first() =~= a.drop_first().push(space) + b);
        law_words_are_parted_by_white_space(a.drop_first(), space, b);
    } else {
        lemma_word_length(a);
        lemma_word_length(s);
        let n = word_length(a) as int;
        let m = word_length(s) as int;
        assert(n > 0) by {
            assert(!white_space(a[0]));
        }
        assert(m == n) by {
            if m < n {
                assert(s[m] == a[m]);
            }
            if n < m {
                assert(!white_space(s[n]));
                if n < a.len() {
                    assert(s[n] == a[n]);
                } else {
                    assert(s[n] == space);
                }
            }
        }
        let rest = a.skip(n);
        assert(s.take(n) =~= a.take(n));
        assert(s.skip(n) =~= rest.push(space) + b);
        law_words_are_parted_by_white_space(rest, space, b);
        assert(seq![a.take(n)] + (words(rest) + words(b)) =~= seq![a.take(n)] + words(rest) + words(b));
    }
}

/// A text without white space is one word, and nothing has no words.
pub proof fn law_a_word_is_a_word(s: Seq<char>)
    requires
        forall|k: int| 0 <= k < s.len() ==> !white_space(s[k]),
    ensures
        words(s) == if s.len() == 0 {
            Seq::<Seq<char>>::empty()
        } else {
            seq![s]
        },
{
    lemma_first_word(s);
    if s.len() > 0 {
        lemma_word_length(s);
        let n = word_length(s) as int;
        assert(n == s.len());
        assert(s.take(n) =~= s);
        assert(s.skip(n) =~= Seq::<char>::empty());
        lemma_first_word(s.skip(n));
        assert(seq![s] + Seq::<Seq<char>>::empty() =~= seq![s]);
    }
}

/// The order of names is that of a dictionary of bytes: where two names part, the smaller byte
/// comes first, and a name comes before those that it begins.
pub proof fn law_names_are_ordered_by_their_bytes(a: Seq<char>, b: Seq<char>, k: int)
    requires
        0 <= k <= encode_utf8(a).len(),
        k <= encode_utf8(b).len(),
        encode_utf8(a).take(k) == encode_utf8(b).take(k),
    ensures
        k == encode_utf8(a).len() ==> name_le(a, b),
        k == encode_utf8(b).len() && k < encode_utf8(a).len() ==> !name_le(a, b),
        k < encode_utf8(a).len() && k < encode_utf8(b).len() && encode_utf8(a)[k] != encode_utf8(b)[k]
            ==> name_le(a, b) == (encode_utf8(a)[k] < encode_utf8(b)[k]),
{
    lemma_bytes_part(encode_utf8(a), encode_utf8(b), k);
}

proof fn lemma_bytes_part(a: Seq<u8>, b: Seq<u8>, k: int)
    requires
        0 <= k <= a.len(),
        k <= b.len(),
        a.take(k) == b.take(k),
    ensures
        bytes_le(a, b) == bytes_le(a.skip(k), b.skip(k)),
    decreases k,
{
    if k == 0 {
        assert(a.skip(0) =~= a);
        assert(b.skip(0) =~= b);
    } else {
        assert(a.take(k)[0] == a[0] && b.take(k)[0] == b[0]);
        let x = a.drop_first();
        let y = b.drop_first();
        assert(x.take(k - 1) =~= a.take(k).drop_first());
        assert(y.take(k - 1) =~= b.take(k).drop_first());
        lemma_bytes_part(x, y, k - 1);
        assert(x.skip(k - 1) =~= a.skip(k));
        assert(y.skip(k - 1) =~= b.skip(k));
    }
}

/// What it means that a text stands in another, and where: the one is the other with something before
/// it, as long as the place says, and something behind it, be it nothing.
pub proof fn law_where_texts_stand(before: Seq<char>, needle: Seq<char>, after: Seq<char>, s: Seq<char>, i: int)
    ensures
        stands_at(before + needle + after, needle, before.len() as int),
        has_text(before + needle + after, needle),
        stands_at(s, needle, i) ==> 0 <= i <= s.len() - needle.len() && s == s.take(i) + needle + s.skip(
            i + needle.len(),
        ),
        has_text(s, needle) ==> exists|k: int|
            0 <= k <= s.len() - needle.len() && s == #[trigger] s.take(k) + needle + s.skip(k + needle.len()),
{
    let all = before + needle + after;
    assert(all.subrange(before.len() as int, before.len() + needle.len() as int) =~= needle);
    assert(stands_at(all, needle, before.len() as int));
    if stands_at(s, needle, i) {
        assert(s =~= s.take(i) + s.subrange(i, i + needle.len()) + s.skip(i + needle.len()));
    }
    if has_text(s, needle) {
        let k = choose|k: int| stands_at(s, needle, k);
        assert(s =~= s.take(k) + s.subrange(k, k + needle.len()) + s.skip(k + needle.len()));
    }
}

/// The first place of a character: it stands there, and not before; without it the place is the end.
pub proof fn law_where_characters_stand(before: Seq<char>, c: char, after: Seq<char>)
    requires
        !before.contains(c),
    ensures
        place_of(before.push(c) + after, c) == before.len(),
        place_of(before, c) == before.len(),
{
    let s = before.push(c) + after;
    lemma_place_of(s, c);
    lemma_place_of(before, c);
    let n = place_of(s, c);
    assert(s[before.len() as int] == c);
    if n < before.len() {
        assert(before[n] == c);
    }
    if place_of(before, c) < before.len() {
        assert(before[place_of(before, c)] == c);
    }
}

/// What is listed by name is listed once each, equal names in their order; there is one such list.
pub proof fn law_lists_by_name(names: Seq<Seq<char>>, order: Seq<int>, i: int, k: int, l: int)
    requires
        is_listing(names, order),
    ensures
        order == listing_of(names),
        order.len() == names.len(),
        0 <= i < names.len() ==> order.contains(i),
        0 <= k < l < order.len() ==> name_le(names[order[k]], names[order[l]]),
        0 <= k < l < order.len() && names[order[k]] == names[order[l]] ==> order[k] < order[l],
{
    lemma_listing_unique(names, order, listing_of(names));
    if 0 <= i < names.len() {
        lemma_listing_complete(names, order, i);
    }
    if 0 <= k < l < order.len() {
        assert(listed_before(names, order[k], order[l]));
    }
}

/// White space by the numbers of its characters.
pub proof fn law_white_space(c: char)
    ensures
        white_space(c) <==> ({
            let n = c as u32;
            ||| 9 <= n <= 13
            ||| n == 32
            ||| n == 133
            ||| n == 160
            ||| n == 5760
            ||| 8192 <= n <= 8202
            ||| n == 8232
            ||| n == 8233
            ||| n == 8239
            ||| n == 8287
            ||| n == 12288
        }),
{
}

} // verus!
