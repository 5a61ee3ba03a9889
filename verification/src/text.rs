//! Character sequences: the model every path and name is stated over, and
//! the searches on them.

use vstd::prelude::*;

verus! {

/// `needle` stands in `hay` at position `at`.
pub open spec fn occurs_at(hay: Seq<char>, needle: Seq<char>, at: int) -> bool {
    &&& 0 <= at
    &&& at + needle.len() <= hay.len()
    &&& hay.subrange(at, at + needle.len()) == needle
}

/// `needle` stands somewhere in `hay`.
pub open spec fn has_substring(hay: Seq<char>, needle: Seq<char>) -> bool {
    exists|at: int| occurs_at(hay, needle, at)
}

/// `hay` begins with `needle`.
pub open spec fn has_prefix(hay: Seq<char>, needle: Seq<char>) -> bool {
    occurs_at(hay, needle, 0)
}

/// `hay` ends with `needle`.
pub open spec fn has_suffix(hay: Seq<char>, needle: Seq<char>) -> bool {
    occurs_at(hay, needle, hay.len() - needle.len())
}

/// Some member of `list` equals `item`.
pub open spec fn lists(list: Seq<Seq<char>>, item: Seq<char>) -> bool {
    exists|i: int| 0 <= i < list.len() && list[i] == item
}

/// The views of a vector of strings, in order.
pub open spec fn views(v: Seq<String>) -> Seq<Seq<char>> {
    Seq::new(v.len(), |i: int| v[i]@)
}

/// White space as Unicode defines it.
pub open spec fn is_space(c: char) -> bool {
    let n = c as u32;
    ||| 0x09 <= n <= 0x0d
    ||| n == 0x20
    ||| n == 0x85
    ||| n == 0xa0
    ||| n == 0x1680
    ||| 0x2000 <= n <= 0x200a
    ||| n == 0x2028
    ||| n == 0x2029
    ||| n == 0x202f
    ||| n == 0x205f
    ||| n == 0x3000
}

/// The first position at or behind `from` that holds no white space.
pub open spec fn lead(s: Seq<char>, from: int) -> int
    decreases s.len() - from,
{
    if from < 0 || from >= s.len() {
        s.len() as int
    } else if is_space(s[from]) {
        lead(s, from + 1)
    } else {
        from
    }
}

/// The end of `s[..n]` without its trailing white space, not below `floor`.
pub open spec fn tail(s: Seq<char>, n: int, floor: int) -> int
    decreases n,
{
    if n <= floor || n <= 0 {
        floor
    } else if is_space(s[n - 1]) {
        tail(s, n - 1, floor)
    } else {
        n
    }
}

/// `s` without the white space at its two ends.
pub open spec fn trimmed(s: Seq<char>) -> Seq<char> {
    let from = lead(s, 0);
    s.subrange(from, tail(s, s.len() as int, from))
}

/// The characters of a string, one by one.
pub fn chars_of(s: &str) -> (v: Vec<char>)
    ensures
        v@ == s@,
{
    broadcast use vstd::string::group_string_axioms;

    let mut v: Vec<char> = Vec::new();
    for c in it: s.chars()
        invariant
            it.seq() == s@,
            v@ == s@.subrange(0, it.index() as int),
    {
        v.push(c);
        assert(v@ =~= s@.subrange(0, it.index() + 1));
    }
    assert(s@.subrange(0, s@.len() as int) =~= s@);
    v
}

/// Appends one character to a string, as `String::push` does.
#[verifier::external_body]
pub(crate) fn push_char(s: &mut String, c: char)
    ensures
        final(s)@ == old(s)@.push(c),
{
    s.push(c)
}

/// The string made of the characters `v[from..to]`.
pub fn string_of(v: &Vec<char>, from: usize, to: usize) -> (s: String)
    requires
        from <= to <= v.len(),
    ensures
        s@ == v@.subrange(from as int, to as int),
{
    let mut s: String = String::new();
    let mut i: usize = from;
    while i < to
        invariant
            from <= i <= to <= v.len(),
            s@ == v@.subrange(from as int, i as int),
        decreases to - i,
    {
        push_char(&mut s, v[i]);
        i += 1;
        assert(s@ =~= v@.subrange(from as int, i as int));
    }
    s
}

/// The lower-case form of a string as `str::to_lowercase` gives it: the
/// Unicode lower-case mapping, which may change the number of characters.
pub uninterp spec fn lowercase_of(s: Seq<char>) -> Seq<char>;

/// Calls `str::to_lowercase`. Nothing is proved of the mapping itself: the
/// contract only names its result, a function of the characters alone.
#[verifier::external_body]
pub(crate) fn lowercase(s: &str) -> (r: String)
    ensures
        r@ == lowercase_of(s@),
{
    s.to_lowercase()
}

/// Whether some member of `list` equals `item`.
pub fn list_has(list: &Vec<String>, item: &String) -> (b: bool)
    ensures
        b == lists(views(list@), item@),
{
    let mut i: usize = 0;
    while i < list.len()
        invariant
            i <= list.len(),
            forall|j: int| 0 <= j < i ==> views(list@)[j] != item@,
        decreases list.len() - i,
    {
        if list[i] == *item {
            assert(views(list@)[i as int] == item@);
            return true;
        }
        i += 1;
    }
    false
}

/// Whether `needle` stands in `hay` at `at`.
pub fn matches_at(hay: &Vec<char>, needle: &Vec<char>, at: usize) -> (b: bool)
    ensures
        b == occurs_at(hay@, needle@, at as int),
{
    if needle.len() > hay.len() || at > hay.len() - needle.len() {
        return false;
    }
    let mut k: usize = 0;
    while k < needle.len()
        invariant
            at + needle.len() <= hay.len(),
            k <= needle.len(),
            forall|j: int| 0 <= j < k ==> hay@[at + j] == needle@[j],
        decreases needle.len() - k,
    {
        if hay[at + k] != needle[k] {
            assert(hay@.subrange(at as int, at + needle.len())[k as int] == hay@[at + k]);
            return false;
        }
        k += 1;
    }
    assert(hay@.subrange(at as int, at + needle.len()) =~= needle@);
    true
}

/// Whether `needle` stands somewhere in `hay`.
pub fn contains(hay: &Vec<char>, needle: &Vec<char>) -> (b: bool)
    ensures
        b == has_substring(hay@, needle@),
{
    if needle.len() > hay.len() {
        return false;
    }
    let last: usize = hay.len() - needle.len();
    let mut at: usize = 0;
    while at <= last
        invariant
            last == hay.len() - needle.len(),
            at <= last + 1,
            forall|j: int| 0 <= j < at ==> !occurs_at(hay@, needle@, j),
        decreases last + 1 - at,
    {
        if matches_at(hay, needle, at) {
            return true;
        }
        if at == last {
            return false;
        }
        at += 1;
    }
    false
}

/// Whether `hay` begins with `needle`.
pub fn starts_with(hay: &Vec<char>, needle: &Vec<char>) -> (b: bool)
    ensures
        b == has_prefix(hay@, needle@),
{
    matches_at(hay, needle, 0)
}

/// Whether `hay` ends with `needle`.
pub fn ends_with(hay: &Vec<char>, needle: &Vec<char>) -> (b: bool)
    ensures
        b == has_suffix(hay@, needle@),
{
    if needle.len() > hay.len() {
        return false;
    }
    matches_at(hay, needle, hay.len() - needle.len())
}

/// Whether two character sequences are equal.
pub fn same(a: &Vec<char>, b: &Vec<char>) -> (r: bool)
    ensures
        r == (a@ == b@),
{
    if a.len() != b.len() {
        return false;
    }
    let r = matches_at(a, b, 0);
    proof {
        assert(a@.subrange(0, a@.len() as int) =~= a@);
    }
    r
}

/// Whether a character is white space.
pub fn is_whitespace(c: char) -> (b: bool)
    ensures
        b == is_space(c),
{
    let n: u32 = c as u32;
    (0x09 <= n && n <= 0x0d) || n == 0x20 || n == 0x85 || n == 0xa0 || n == 0x1680 || (0x2000 <= n
        && n <= 0x200a) || n == 0x2028 || n == 0x2029 || n == 0x202f || n == 0x205f || n == 0x3000
}

/// The characters `v[from..to]`.
pub fn slice(v: &Vec<char>, from: usize, to: usize) -> (r: Vec<char>)
    requires
        from <= to <= v.len(),
    ensures
        r@ == v@.subrange(from as int, to as int),
{
    let mut r: Vec<char> = Vec::new();
    let mut i: usize = from;
    while i < to
        invariant
            from <= i <= to <= v.len(),
            r@ == v@.subrange(from as int, i as int),
        decreases to - i,
    {
        r.push(v[i]);
        i += 1;
        assert(r@ =~= v@.subrange(from as int, i as int));
    }
    r
}

/// Takes the white space off both ends.
pub fn trim(s: &Vec<char>) -> (r: Vec<char>)
    ensures
        r@ == trimmed(s@),
{
    let mut from: usize = 0;
    while from < s.len() && is_whitespace(s[from])
        invariant
            from <= s.len(),
            lead(s@, 0) == lead(s@, from as int),
        decreases s.len() - from,
    {
        from += 1;
    }
    let mut to: usize = s.len();
    while to > from && is_whitespace(s[to - 1])
        invariant
            from <= to <= s.len(),
            tail(s@, s@.len() as int, from as int) == tail(s@, to as int, from as int),
        decreases to,
    {
        to -= 1;
    }
    slice(s, from, to)
}

} // verus!
