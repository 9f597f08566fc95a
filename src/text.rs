use vstd::prelude::*;
use vstd::std_specs::iter::IteratorSpec;

verus! {

/// The characters with the Unicode `White_Space` property.
pub open spec fn is_space(c: char) -> bool {
    let u = c as u32;
    (0x09 <= u <= 0x0D) || u == 0x20 || u == 0x85 || u == 0xA0 || u == 0x1680
        || (0x2000 <= u <= 0x200A) || u == 0x2028 || u == 0x2029 || u == 0x202F
        || u == 0x205F || u == 0x3000
}

pub fn is_space_char(c: char) -> (r: bool)
    ensures
        r == is_space(c),
{
    let u = c as u32;
    (0x09 <= u && u <= 0x0D) || u == 0x20 || u == 0x85 || u == 0xA0 || u == 0x1680
        || (0x2000 <= u && u <= 0x200A) || u == 0x2028 || u == 0x2029 || u == 0x202F
        || u == 0x205F || u == 0x3000
}

pub open spec fn views(v: Seq<Vec<char>>) -> Seq<Seq<char>> {
    v.map_values(|l: Vec<char>| l@)
}

/// The pieces of `s` between occurrences of `sep`, `cur` being the piece
/// already begun: `n` separators give `n + 1` pieces, empty ones included.
pub open spec fn pieces_from(s: Seq<char>, sep: char, cur: Seq<char>) -> Seq<Seq<char>>
    decreases s.len(),
{
    if s.len() == 0 {
        seq![cur]
    } else if s[0] == sep {
        seq![cur] + pieces_from(s.drop_first(), sep, Seq::empty())
    } else {
        pieces_from(s.drop_first(), sep, cur.push(s[0]))
    }
}

pub open spec fn pieces(s: Seq<char>, sep: char) -> Seq<Seq<char>> {
    pieces_from(s, sep, Seq::empty())
}

/// `cur` as a one-element sequence, or nothing where it is empty.
pub open spec fn flush(cur: Seq<char>) -> Seq<Seq<char>> {
    if cur.len() > 0 {
        seq![cur]
    } else {
        Seq::empty()
    }
}

/// The maximal runs of non-whitespace characters of `s`, `cur` being the run
/// already begun.
pub open spec fn tokens_from(s: Seq<char>, cur: Seq<char>) -> Seq<Seq<char>>
    decreases s.len(),
{
    if s.len() == 0 {
        flush(cur)
    } else if is_space(s[0]) {
        flush(cur) + tokens_from(s.drop_first(), Seq::empty())
    } else {
        tokens_from(s.drop_first(), cur.push(s[0]))
    }
}

pub open spec fn tokens(s: Seq<char>) -> Seq<Seq<char>> {
    tokens_from(s, Seq::empty())
}

proof fn lemma_views_push(v: Seq<Vec<char>>, x: Vec<char>)
    ensures
        views(v.push(x)) == views(v).push(x@),
{
    assert(views(v.push(x)) =~= views(v).push(x@));
}

/// The characters of a string slice, in order.
pub fn chars_of(s: &str) -> (r: Vec<char>)
    ensures
        r@ == s@,
{
    broadcast use vstd::string::group_string_axioms;

    let mut it = s.chars();
    let mut out: Vec<char> = Vec::new();
    assert(out@ + it.remaining() =~= s@);
    loop
        invariant
            out@ + it.remaining() == s@,
            it.decrease() is Some,
        ensures
            out@ == s@,
        decreases it.decrease()->0,
    {
        match it.next() {
            Some(c) => {
                out.push(c);
            },
            None => {
                assert(out@ =~= s@);
                break ;
            },
        }
    }
    out
}

/// Splits `s` at every occurrence of `sep`.
pub fn split_at_char(s: &Vec<char>, sep: char) -> (r: Vec<Vec<char>>)
    ensures
        views(r@) == pieces(s@, sep),
{
    let mut out: Vec<Vec<char>> = Vec::new();
    let mut cur: Vec<char> = Vec::new();
    let mut i: usize = 0;
    assert(s@.skip(0) =~= s@);
    assert(cur@ =~= Seq::<char>::empty());
    assert(views(out@) + pieces_from(s@.skip(0), sep, cur@) =~= pieces(s@, sep));
    while i < s.len()
        invariant
            i <= s@.len(),
            views(out@) + pieces_from(s@.skip(i as int), sep, cur@) == pieces(s@, sep),
        decreases s@.len() - i,
    {
        let c = s[i];
        assert(s@.skip(i as int).drop_first() =~= s@.skip(i + 1));
        if c == sep {
            proof {
                lemma_views_push(out@, cur);
                assert(seq![cur@] + pieces_from(s@.skip(i + 1), sep, Seq::empty()) == pieces_from(
                    s@.skip(i as int),
                    sep,
                    cur@,
                ));
                assert(views(out@.push(cur)) + pieces_from(s@.skip(i + 1), sep, Seq::empty())
                    =~= views(out@) + pieces_from(s@.skip(i as int), sep, cur@));
            }
            out.push(cur);
            cur = Vec::new();
            assert(cur@ =~= Seq::<char>::empty());
        } else {
            cur.push(c);
        }
        i = i + 1;
    }
    proof {
        lemma_views_push(out@, cur);
        assert(pieces_from(s@.skip(i as int), sep, cur@) == seq![cur@]);
        assert(views(out@.push(cur)) =~= views(out@) + seq![cur@]);
    }
    out.push(cur);
    out
}

/// Splits `s` into its maximal runs of non-whitespace characters.
pub fn split_tokens(s: &Vec<char>) -> (r: Vec<Vec<char>>)
    ensures
        views(r@) == tokens(s@),
{
    let mut out: Vec<Vec<char>> = Vec::new();
    let mut cur: Vec<char> = Vec::new();
    let mut i: usize = 0;
    assert(s@.skip(0) =~= s@);
    assert(cur@ =~= Seq::<char>::empty());
    assert(views(out@) + tokens_from(s@.skip(0), cur@) =~= tokens_from(s@, Seq::empty()));
    while i < s.len()
        invariant
            i <= s@.len(),
            views(out@) + tokens_from(s@.skip(i as int), cur@) == tokens(s@),
        decreases s@.len() - i,
    {
        let c = s[i];
        assert(s@.skip(i as int).drop_first() =~= s@.skip(i + 1));
        if is_space_char(c) {
            if cur.len() > 0 {
                proof {
                    lemma_views_push(out@, cur);
                    assert(views(out@) + tokens_from(s@.skip(i as int), cur@) =~= views(
                        out@.push(cur),
                    ) + tokens_from(s@.skip(i + 1), Seq::empty()));
                }
                out.push(cur);
                cur = Vec::new();
            } else {
                assert(views(out@) + tokens_from(s@.skip(i as int), cur@) =~= views(out@)
                    + tokens_from(s@.skip(i + 1), Seq::empty()));
            }
            assert(cur@ =~= Seq::<char>::empty());
        } else {
            cur.push(c);
        }
        i = i + 1;
    }
    proof {
        assert(tokens_from(s@.skip(i as int), cur@) == flush(cur@));
    }
    if cur.len() > 0 {
        proof {
            lemma_views_push(out@, cur);
            assert(views(out@.push(cur)) =~= views(out@) + flush(cur@));
        }
        out.push(cur);
    } else {
        assert(views(out@) =~= views(out@) + flush(cur@));
    }
    out
}

/// Whether `c` is a digit of base `radix` (10 or 16, hex digits in either case).
pub open spec fn is_digit(c: char, radix: nat) -> bool {
    let u = c as u32;
    (0x30 <= u <= 0x39) || (radix == 16 && ((0x61 <= u <= 0x66) || (0x41 <= u <= 0x46)))
}

/// The value of a digit character.
pub open spec fn digit_of(c: char) -> nat {
    let u = c as u32;
    if 0x30 <= u <= 0x39 {
        (u - 0x30) as nat
    } else if 0x61 <= u <= 0x66 {
        (u - 0x61 + 10) as nat
    } else {
        (u - 0x41 + 10) as nat
    }
}

/// The number that the digits `d` write in base `radix`, most significant first.
pub open spec fn value_of(d: Seq<char>, radix: nat) -> nat
    decreases d.len(),
{
    if d.len() == 0 {
        0
    } else {
        value_of(d.drop_last(), radix) * radix + digit_of(d.last())
    }
}

/// The digits of an unsigned number: `s` without one leading `+`.
pub open spec fn unsigned_digits(s: Seq<char>) -> Seq<char> {
    if s.len() > 0 && s[0] == '+' {
        s.drop_first()
    } else {
        s
    }
}

/// An unsigned number in base `radix`: an optional `+`, then one or more
/// digits, whose value fits in a `usize`.
pub open spec fn parse_unsigned(s: Seq<char>, radix: nat) -> Option<usize> {
    let d = unsigned_digits(s);
    if d.len() > 0 && (forall|i: int| 0 <= i < d.len() ==> is_digit(#[trigger] d[i], radix))
        && value_of(d, radix) <= usize::MAX {
        Some(value_of(d, radix) as usize)
    } else {
        None
    }
}

proof fn lemma_value_prefix(d: Seq<char>, j: int, radix: nat)
    requires
        0 <= j <= d.len(),
        radix >= 1,
    ensures
        value_of(d.take(j), radix) <= value_of(d, radix),
    decreases d.len(),
{
    if j < d.len() {
        lemma_value_prefix(d.drop_last(), j, radix);
        assert(d.drop_last().take(j) =~= d.take(j));
        let v = value_of(d.drop_last(), radix);
        assert(v * radix >= v) by (nonlinear_arith)
            requires
                radix >= 1,
        ;
    } else {
        assert(d.take(j) =~= d);
    }
}

fn digit_value(c: char, radix: usize) -> (r: Option<usize>)
    requires
        radix == 10 || radix == 16,
    ensures
        r is Some == is_digit(c, radix as nat),
        r is Some ==> r->0 == digit_of(c) && r->0 < radix,
{
    let u = c as u32;
    if 0x30 <= u && u <= 0x39 {
        Some((u - 0x30) as usize)
    } else if radix == 16 && 0x61 <= u && u <= 0x66 {
        Some((u - 0x61 + 10) as usize)
    } else if radix == 16 && 0x41 <= u && u <= 0x46 {
        Some((u - 0x41 + 10) as usize)
    } else {
        None
    }
}

/// Reads an unsigned number in base 10 or 16; `None` where `s` is not one or
/// its value does not fit in a `usize`.
pub fn parse_unsigned_chars(s: &Vec<char>, radix: usize) -> (r: Option<usize>)
    requires
        radix == 10 || radix == 16,
    ensures
        r == parse_unsigned(s@, radix as nat),
{
    let k: usize = if s.len() > 0 && s[0] == '+' {
        1
    } else {
        0
    };
    let ghost d = unsigned_digits(s@);
    assert(d =~= s@.skip(k as int));
    if k == s.len() {
        return None;
    }
    let mut acc: usize = 0;
    let mut i: usize = k;
    assert(s@.subrange(k as int, k as int) =~= Seq::<char>::empty());
    while i < s.len()
        invariant
            k <= i <= s@.len(),
            d == s@.skip(k as int),
            d == unsigned_digits(s@),
            radix == 10 || radix == 16,
            acc == value_of(s@.subrange(k as int, i as int), radix as nat),
            forall|j: int| k <= j < i ==> is_digit(#[trigger] s@[j], radix as nat),
        decreases s@.len() - i,
    {
        let c = s[i];
        assert(s@.subrange(k as int, i + 1).drop_last() =~= s@.subrange(k as int, i as int));
        assert(s@.subrange(k as int, i + 1) =~= d.take(i + 1 - k));
        let dig = match digit_value(c, radix) {
            Some(v) => v,
            None => {
                assert(!is_digit(d[i - k], radix as nat));
                return None;
            },
        };
        let next = match acc.checked_mul(radix) {
            Some(m) => m.checked_add(dig),
            None => None,
        };
        match next {
            Some(v) => {
                acc = v;
            },
            None => {
                proof {
                    assert(acc * radix >= 0) by (nonlinear_arith)
                        requires
                            radix >= 1,
                    ;
                    let p = s@.subrange(k as int, i + 1);
                    assert(p.last() == c);
                    assert(value_of(p, radix as nat) > usize::MAX);
                    lemma_value_prefix(d, i + 1 - k, radix as nat);
                }
                return None;
            },
        }
        i = i + 1;
    }
    assert(s@.subrange(k as int, i as int) =~= d);
    Some(acc)
}

/// Relies on `String::push`: appends one character at the end.
#[verifier::external_body]
fn push_char(s: &mut String, c: char)
    ensures
        final(s)@ == old(s)@.push(c),
{
    s.push(c)
}

/// The string made of the characters `v`.
pub fn string_of(v: &Vec<char>) -> (r: String)
    ensures
        r@ == v@,
{
    let mut s = String::new();
    let mut i: usize = 0;
    while i < v.len()
        invariant
            i <= v@.len(),
            s@ == v@.take(i as int),
        decreases v@.len() - i,
    {
        assert(v@.take(i + 1) =~= v@.take(i as int).push(v@[i as int]));
        push_char(&mut s, v[i]);
        i = i + 1;
    }
    assert(v@.take(i as int) =~= v@);
    s
}

} // verus!
