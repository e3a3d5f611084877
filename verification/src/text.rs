use vstd::prelude::*;
use vstd::std_specs::iter::IteratorSpec;

verus! {

/// White space: the characters that Unicode counts as white space.
pub open spec fn is_space(c: char) -> bool {
    let u = c as u32;
    (0x09 <= u <= 0x0d) || u == 0x20 || u == 0x85 || u == 0xa0 || u == 0x1680 || (0x2000 <= u
        <= 0x200a) || u == 0x2028 || u == 0x2029 || u == 0x202f || u == 0x205f || u == 0x3000
}

/// The first index from `i` on at which `s` holds `stop`, or the length of `s`
/// if it holds none there.
pub open spec fn first_at(s: Seq<char>, i: int, stop: char) -> int
    decreases s.len() - i,
{
    if i >= s.len() {
        s.len() as int
    } else if s[i] == stop {
        i
    } else {
        first_at(s, i + 1, stop)
    }
}

/// The first index from `i` on at which `s` holds no white space, or the
/// length of `s`.
pub open spec fn text_start(s: Seq<char>, i: int) -> int
    decreases s.len() - i,
{
    if i >= s.len() {
        s.len() as int
    } else if is_space(s[i]) {
        text_start(s, i + 1)
    } else {
        i
    }
}

/// The index behind the last character before `n` that is no white space, but
/// at least `from`.
pub open spec fn text_end(s: Seq<char>, from: int, n: int) -> int
    decreases n - from,
{
    if n <= from {
        from
    } else if is_space(s[n - 1]) {
        text_end(s, from, n - 1)
    } else {
        n
    }
}

/// `s` without the white space at its two ends.
pub open spec fn trimmed(s: Seq<char>) -> Seq<char> {
    s.subrange(text_start(s, 0), text_end(s, text_start(s, 0), s.len() as int))
}

/// A decimal digit.
pub open spec fn is_digit(c: char) -> bool {
    0x30 <= c as u32 <= 0x39
}

/// Every character of `s` is a decimal digit.
pub open spec fn all_digits(s: Seq<char>) -> bool {
    forall|i: int| 0 <= i < s.len() ==> is_digit(#[trigger] s[i])
}

/// What a decimal digit counts; any other character counts nothing.
pub open spec fn digit_of(c: char) -> nat {
    if is_digit(c) {
        (c as u32 - 0x30) as nat
    } else {
        0
    }
}

/// The number that the digits of `s` write in base ten.
pub open spec fn digits_value(s: Seq<char>) -> nat
    decreases s.len(),
{
    if s.len() == 0 {
        0
    } else {
        digits_value(s.drop_last()) * 10 + digit_of(s.last())
    }
}

/// `s` without a plus sign in front.
pub open spec fn unsigned_part(s: Seq<char>) -> Seq<char> {
    if s.len() > 0 && s[0] == '+' {
        s.subrange(1, s.len() as int)
    } else {
        s
    }
}

/// The number that `s` writes: at least one decimal digit, with or without a
/// plus sign in front, and nothing else. Zeros in front are allowed.
pub open spec fn decimal(s: Seq<char>) -> Option<nat> {
    if unsigned_part(s).len() > 0 && all_digits(unsigned_part(s)) {
        Some(digits_value(unsigned_part(s)))
    } else {
        None
    }
}

/// The number that `s` writes, if it is at most `max`.
pub open spec fn decimal_up_to(s: Seq<char>, max: nat) -> Option<nat> {
    match decimal(s) {
        Some(v) => if v <= max {
            Some(v)
        } else {
            None
        },
        None => None,
    }
}

/// A search that starts within `s` ends between its start and the length of
/// `s`, passes no `stop`, and ends at a `stop` unless it ends at the length.
pub proof fn lemma_first_at_bounds(s: Seq<char>, i: int, stop: char)
    requires
        0 <= i <= s.len(),
    ensures
        i <= first_at(s, i, stop) <= s.len(),
        forall|j: int| i <= j < first_at(s, i, stop) ==> #[trigger] s[j] != stop,
        first_at(s, i, stop) < s.len() ==> s[first_at(s, i, stop)] == stop,
    decreases s.len() - i,
{
    if i < s.len() && s[i] != stop {
        lemma_first_at_bounds(s, i + 1, stop);
    }
}

/// What is cut off at the two ends of `s` is white space, and what is left
/// neither begins nor ends with white space.
pub proof fn lemma_trimmed_ends(s: Seq<char>)
    ensures
        0 <= text_start(s, 0) <= text_end(s, text_start(s, 0), s.len() as int) <= s.len(),
        forall|j: int| 0 <= j < text_start(s, 0) ==> is_space(#[trigger] s[j]),
        forall|j: int|
            text_end(s, text_start(s, 0), s.len() as int) <= j < s.len() ==> is_space(
                #[trigger] s[j],
            ),
        trimmed(s).len() > 0 ==> !is_space(trimmed(s)[0]) && !is_space(trimmed(s).last()),
{
    lemma_text_start(s, 0);
    lemma_text_end(s, text_start(s, 0), s.len() as int);
}

/// The white space that begins at `i` ends at `text_start(s, i)`.
proof fn lemma_text_start(s: Seq<char>, i: int)
    requires
        0 <= i <= s.len(),
    ensures
        i <= text_start(s, i) <= s.len(),
        forall|j: int| i <= j < text_start(s, i) ==> is_space(#[trigger] s[j]),
        text_start(s, i) < s.len() ==> !is_space(s[text_start(s, i)]),
    decreases s.len() - i,
{
    if i < s.len() && is_space(s[i]) {
        lemma_text_start(s, i + 1);
    }
}

/// The white space that ends at `n` begins at `text_end(s, from, n)`, or
/// before `from`.
proof fn lemma_text_end(s: Seq<char>, from: int, n: int)
    requires
        0 <= from <= n <= s.len(),
    ensures
        from <= text_end(s, from, n) <= n,
        forall|j: int| text_end(s, from, n) <= j < n ==> is_space(#[trigger] s[j]),
        text_end(s, from, n) > from ==> !is_space(s[text_end(s, from, n) - 1]),
    decreases n - from,
{
    if n > from && is_space(s[n - 1]) {
        lemma_text_end(s, from, n - 1);
    }
}

/// Digits never write less than any of their prefixes does.
pub proof fn lemma_digits_value_grows(s: Seq<char>, k: int)
    requires
        0 <= k <= s.len(),
    ensures
        digits_value(s.subrange(0, k)) <= digits_value(s),
    decreases s.len(),
{
    if k == s.len() {
        assert(s.subrange(0, k) =~= s);
    } else {
        lemma_digits_value_grows(s.drop_last(), k);
        assert(s.drop_last().subrange(0, k) =~= s.subrange(0, k));
    }
}

/// The characters of a string, in order.
pub fn chars_of(s: &str) -> (v: Vec<char>)
    ensures
        v@ == s@,
{
    broadcast use vstd::string::axiom_spec_iter, vstd::string::next_postcondition;

    let mut it = s.chars();
    let mut v: Vec<char> = Vec::new();
    loop
        invariant
            v@ + it.remaining() == s@,
            it.decrease() is Some,
        ensures
            v@ == s@,
        decreases it.decrease()->0,
    {
        let ghost before = it.remaining();
        let ghost done = v@;
        match it.next() {
            Some(c) => {
                v.push(c);
                assert(v@ + it.remaining() =~= done + before);
            },
            None => {
                assert(v@ + before =~= v@);
                break ;
            },
        }
    }
    v
}

/// The characters of `v` from index `from` up to index `to`.
pub fn piece(v: &Vec<char>, from: usize, to: usize) -> (r: Vec<char>)
    requires
        from <= to <= v@.len(),
    ensures
        r@ == v@.subrange(from as int, to as int),
{
    let mut r: Vec<char> = Vec::new();
    let mut i: usize = from;
    while i < to
        invariant
            from <= i <= to <= v@.len(),
            r@ == v@.subrange(from as int, i as int),
        decreases to - i,
    {
        r.push(v[i]);
        proof {
            assert(r@ =~= v@.subrange(from as int, i + 1));
        }
        i += 1;
    }
    r
}

/// Tells white space from other characters.
pub fn space(c: char) -> (b: bool)
    ensures
        b == is_space(c),
{
    let u: u32 = c as u32;
    (0x09 <= u && u <= 0x0d) || u == 0x20 || u == 0x85 || u == 0xa0 || u == 0x1680 || (0x2000
        <= u && u <= 0x200a) || u == 0x2028 || u == 0x2029 || u == 0x202f || u == 0x205f || u
        == 0x3000
}

/// Finds the first `stop` in `v` from index `from` on.
pub fn find(v: &Vec<char>, from: usize, stop: char) -> (e: usize)
    requires
        from <= v@.len(),
    ensures
        e == first_at(v@, from as int, stop),
        from <= e <= v@.len(),
{
    let mut i: usize = from;
    while i < v.len() && v[i] != stop
        invariant
            from <= i <= v@.len(),
            first_at(v@, from as int, stop) == first_at(v@, i as int, stop),
        decreases v@.len() - i,
    {
        i += 1;
    }
    i
}

/// Copies `v` without the white space at its two ends.
pub fn trim(v: &Vec<char>) -> (t: Vec<char>)
    ensures
        t@ == trimmed(v@),
{
    let mut a: usize = 0;
    while a < v.len() && space(v[a])
        invariant
            a <= v@.len(),
            text_start(v@, 0) == text_start(v@, a as int),
        decreases v@.len() - a,
    {
        a += 1;
    }
    let mut b: usize = v.len();
    while b > a && space(v[b - 1])
        invariant
            a <= b <= v@.len(),
            text_end(v@, a as int, v@.len() as int) == text_end(v@, a as int, b as int),
        decreases b - a,
    {
        b -= 1;
    }
    piece(v, a, b)
}

/// Reads the number that the characters of `v` from `from` up to `to` write,
/// if it is at most `max`.
pub fn number(v: &Vec<char>, from: usize, to: usize, max: u64) -> (r: Option<u64>)
    requires
        from <= to <= v@.len(),
    ensures
        r == match decimal_up_to(v@.subrange(from as int, to as int), max as nat) {
            Some(n) => Some(n as u64),
            None => None,
        },
{
    let ghost s = v@.subrange(from as int, to as int);
    let first: usize = if from < to && v[from] == '+' {
        from + 1
    } else {
        from
    };
    let ghost d = unsigned_part(s);
    assert(d =~= v@.subrange(first as int, to as int)) by {
        if from < to {
            assert(s[0] == v@[from as int]);
        }
    }
    if first == to {
        return None;
    }
    let mut acc: u64 = 0;
    let mut i: usize = first;
    while i < to
        invariant
            first <= i <= to <= v@.len(),
            s == v@.subrange(from as int, to as int),
            d == unsigned_part(s),
            d == v@.subrange(first as int, to as int),
            all_digits(d.subrange(0, i - first)),
            acc == digits_value(d.subrange(0, i - first)),
            acc <= max,
        decreases to - i,
    {
        let c: char = v[i];
        let u: u32 = c as u32;
        if u < 0x30 || u > 0x39 {
            proof {
                assert(!is_digit(d[i - first]));
            }
            return None;
        }
        let next: u128 = (acc as u128) * 10 + ((u - 0x30) as u128);
        proof {
            let p = d.subrange(0, i - first + 1);
            assert(p.drop_last() =~= d.subrange(0, i - first));
            assert(p.last() == v@[i as int]);
            assert(digits_value(p) == next);
            assert forall|j: int| 0 <= j < p.len() implies is_digit(#[trigger] p[j]) by {
                if j < p.len() - 1 {
                    assert(p[j] == d.subrange(0, i - first)[j]);
                }
            }
            if next > max {
                lemma_digits_value_grows(d, i - first + 1);
            }
        }
        if next > max as u128 {
            return None;
        }
        acc = next as u64;
        i += 1;
    }
    proof {
        assert(d.subrange(0, to - first) =~= d);
    }
    Some(acc)
}

} // verus!
