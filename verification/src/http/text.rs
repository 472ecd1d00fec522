//! Character-level helpers on string slices: searching, comparing and
//! cutting, all stated over the slice's sequence of `char`s.

use vstd::prelude::*;
use vstd::std_specs::iter::IteratorSpec;
use vstd::string::StringSliceAdditionalSpecFns;
use vstd::utf8::*;

verus! {

/// True where `c` carries the Unicode `White_Space` property.
pub open spec fn is_whitespace(c: char) -> bool {
    let n = c as u32;
    ||| 0x09 <= n <= 0x0D
    ||| n == 0x20
    ||| n == 0x85
    ||| n == 0xA0
    ||| n == 0x1680
    ||| 0x2000 <= n <= 0x200A
    ||| n == 0x2028
    ||| n == 0x2029
    ||| n == 0x202F
    ||| n == 0x205F
    ||| n == 0x3000
}

/// Index of the first element of `s` equal to `c`; the length of `s` where
/// no element is.
pub open spec fn first_index_of(s: Seq<char>, c: char) -> int
    decreases s.len(),
{
    if s.len() == 0 || s[0] == c {
        0
    } else {
        1 + first_index_of(s.drop_first(), c)
    }
}

/// Index of the first whitespace element of `s`; the length of `s` where
/// no element is whitespace.
pub open spec fn first_whitespace(s: Seq<char>) -> int
    decreases s.len(),
{
    if s.len() == 0 || is_whitespace(s[0]) {
        0
    } else {
        1 + first_whitespace(s.drop_first())
    }
}

/// `first_index_of` stays within the sequence, stops on `c`, and passes no
/// earlier `c`.
pub proof fn lemma_first_index_of(s: Seq<char>, c: char)
    ensures
        0 <= first_index_of(s, c) <= s.len(),
        first_index_of(s, c) < s.len() ==> s[first_index_of(s, c)] == c,
        forall|j: int| 0 <= j < first_index_of(s, c) ==> s[j] != c,
    decreases s.len(),
{
    if s.len() == 0 || s[0] == c {
    } else {
        let t = s.drop_first();
        lemma_first_index_of(t, c);
        assert forall|j: int| 0 <= j < first_index_of(s, c) implies s[j] != c by {
            if j > 0 {
                assert(s[j] == t[j - 1]);
            }
        }
    }
}

/// An index that stops on `c` (or at the end) and passes no earlier `c` is
/// `first_index_of`.
pub proof fn lemma_first_index_of_is(s: Seq<char>, c: char, i: int)
    requires
        0 <= i <= s.len(),
        i < s.len() ==> s[i] == c,
        forall|j: int| 0 <= j < i ==> s[j] != c,
    ensures
        first_index_of(s, c) == i,
{
    lemma_first_index_of(s, c);
    let k = first_index_of(s, c);
    if k < i {
        assert(s[k] != c);
    }
}

/// `first_whitespace` stays within the sequence, stops on whitespace, and
/// passes none earlier.
pub proof fn lemma_first_whitespace(s: Seq<char>)
    ensures
        0 <= first_whitespace(s) <= s.len(),
        first_whitespace(s) < s.len() ==> is_whitespace(s[first_whitespace(s)]),
        forall|j: int| 0 <= j < first_whitespace(s) ==> !is_whitespace(s[j]),
    decreases s.len(),
{
    if s.len() == 0 || is_whitespace(s[0]) {
    } else {
        let t = s.drop_first();
        lemma_first_whitespace(t);
        assert forall|j: int| 0 <= j < first_whitespace(s) implies !is_whitespace(s[j]) by {
            if j > 0 {
                assert(s[j] == t[j - 1]);
            }
        }
    }
}

/// An index that stops on whitespace (or at the end) and passes none earlier
/// is `first_whitespace`.
pub proof fn lemma_first_whitespace_is(s: Seq<char>, i: int)
    requires
        0 <= i <= s.len(),
        i < s.len() ==> is_whitespace(s[i]),
        forall|j: int| 0 <= j < i ==> !is_whitespace(s[j]),
    ensures
        first_whitespace(s) == i,
{
    lemma_first_whitespace(s);
    let k = first_whitespace(s);
    if k < i {
        assert(!is_whitespace(s[k]));
    }
}

/// Encoding goes piece by piece: the bytes of a text are the bytes of its
/// front, then the bytes of its back.
pub proof fn lemma_encode_concat(a: Seq<char>, b: Seq<char>)
    ensures
        encode_utf8(a + b) == encode_utf8(a) + encode_utf8(b),
    decreases a.len(),
{
    if a.len() == 0 {
        assert(a + b =~= b);
        assert(encode_utf8(a) + encode_utf8(b) =~= encode_utf8(b));
    } else {
        lemma_encode_concat(a.drop_first(), b);
        assert((a + b).drop_first() =~= a.drop_first() + b);
        assert(encode_utf8(a + b) =~= encode_utf8(a) + encode_utf8(b));
    }
}

/// Two texts with the same bytes are the same text.
pub proof fn lemma_encode_injective(a: Seq<char>, b: Seq<char>)
    requires
        encode_utf8(a) == encode_utf8(b),
    ensures
        a == b,
{
    encode_utf8_decode_utf8(a);
    encode_utf8_decode_utf8(b);
}

/// The bytes of the first `i` characters of `s` end on a character
/// boundary of the bytes of `s`, and part them into the bytes of those
/// characters and the bytes of the others.
pub proof fn lemma_encode_split(s: Seq<char>, i: int)
    requires
        0 <= i <= s.len(),
    ensures
        is_char_boundary(encode_utf8(s), encode_utf8(s.take(i)).len() as int),
        encode_utf8(s.take(i)).len() <= encode_utf8(s).len(),
        encode_utf8(s).subrange(0, encode_utf8(s.take(i)).len() as int) == encode_utf8(s.take(i)),
        encode_utf8(s).subrange(
            encode_utf8(s.take(i)).len() as int,
            encode_utf8(s).len() as int,
        ) == encode_utf8(s.skip(i)),
    decreases i,
{
    let bytes = encode_utf8(s);
    let front = encode_utf8(s.take(i));
    lemma_encode_concat(s.take(i), s.skip(i));
    assert(s.take(i) + s.skip(i) =~= s);
    assert(bytes.subrange(0, front.len() as int) =~= front);
    assert(bytes.subrange(front.len() as int, bytes.len() as int) =~= encode_utf8(s.skip(i)));
    encode_utf8_valid_utf8(s);
    if i > 0 {
        let rest = s.drop_first();
        lemma_encode_split(rest, i - 1);
        encode_utf8_first_scalar(s);
        assert(pop_first_scalar(bytes) =~= encode_utf8(rest));
        assert(s.take(i).drop_first() =~= rest.take(i - 1));
        assert(front.len() == encode_scalar(s[0] as u32).len() + encode_utf8(rest.take(i - 1)).len());
    }
}

/// One character more in front takes that character's bytes more.
pub proof fn lemma_encode_step(s: Seq<char>, i: int)
    requires
        0 <= i < s.len(),
    ensures
        encode_utf8(s.take(i + 1)).len() == encode_utf8(s.take(i)).len() + encode_scalar(
            s[i] as u32,
        ).len(),
        encode_utf8(s.take(i + 1)).len() <= encode_utf8(s).len(),
{
    lemma_encode_concat(s.take(i), seq![s[i]]);
    assert(s.take(i) + seq![s[i]] =~= s.take(i + 1));
    assert(seq![s[i]].drop_first() =~= Seq::<char>::empty());
    assert(encode_utf8(seq![s[i]]) =~= encode_scalar(s[i] as u32)) by {
        reveal_with_fuel(encode_utf8, 2);
    }
    lemma_encode_split(s, i + 1);
}

/// Tells whether `c` is a Unicode whitespace code point.
pub fn char_is_whitespace(c: char) -> (r: bool)
    ensures
        r == is_whitespace(c),
{
    let n: u32 = c as u32;
    (0x09 <= n && n <= 0x0D) || n == 0x20 || n == 0x85 || n == 0xA0 || n == 0x1680 || (0x2000 <= n
        && n <= 0x200A) || n == 0x2028 || n == 0x2029 || n == 0x202F || n == 0x205F || n == 0x3000
}

/// Number of bytes that `c` takes in UTF-8.
pub fn utf8_width(c: char) -> (r: usize)
    ensures
        r == encode_scalar(c as u32).len(),
        1 <= r <= 4,
{
    proof {
        char_is_scalar(c);
    }
    let n: u32 = c as u32;
    if n < 0x80 {
        1
    } else if n < 0x800 {
        2
    } else if n < 0x10000 {
        3
    } else {
        4
    }
}

/// Cuts `s` behind its first `i` characters, which take `offset` bytes.
fn cut<'a>(s: &'a str, offset: usize, Ghost(i): Ghost<int>) -> (r: (&'a str, &'a str))
    requires
        0 <= i <= s@.len(),
        offset == encode_utf8(s@.take(i)).len(),
    ensures
        r.0@ == s@.take(i),
        r.1@ == s@.skip(i),
{
    proof {
        lemma_encode_split(s@, i);
    }
    let r = s.split_at(offset);
    proof {
        lemma_encode_injective(r.0@, s@.take(i));
        lemma_encode_injective(r.1@, s@.skip(i));
    }
    r
}

/// Cuts `s` around its character at position `i`, which is `c` and stands
/// `offset` bytes from the start: what stands before it, and what stands
/// after it.
fn cut_around<'a>(s: &'a str, offset: usize, c: char, Ghost(i): Ghost<int>) -> (r: (
    &'a str,
    &'a str,
))
    requires
        0 <= i < s@.len(),
        s@[i] == c,
        offset == encode_utf8(s@.take(i)).len(),
    ensures
        r.0@ == s@.take(i),
        r.1@ == s@.skip(i + 1),
{
    let (head, rest) = cut(s, offset, Ghost(i));
    proof {
        lemma_encode_step(rest@, 0);
        assert(rest@.take(0) =~= Seq::<char>::empty());
        assert(rest@.skip(1) =~= s@.skip(i + 1));
    }
    let (_, tail) = cut(rest, utf8_width(c), Ghost(1));
    (head, tail)
}

/// Cuts `s` around its first `c`: what stands before it, and what stands
/// after it. `None` where `s` holds no `c`.
pub fn split_at_char<'a>(s: &'a str, c: char) -> (r: Option<(&'a str, &'a str)>)
    ensures
        match r {
            Some((head, tail)) => {
                &&& first_index_of(s@, c) < s@.len()
                &&& head@ == s@.take(first_index_of(s@, c))
                &&& tail@ == s@.skip(first_index_of(s@, c) + 1)
            },
            None => first_index_of(s@, c) == s@.len(),
        },
{
    let bytes: usize = s.as_bytes().len();
    let mut offset: usize = 0;
    let chars = s.chars();
    for x in it: chars
        invariant
            it.seq() == s@,
            bytes == encode_utf8(s@).len(),
            offset == encode_utf8(s@.take(it.index() as int)).len(),
            forall|j: int| 0 <= j < it.index() ==> s@[j] != c,
    {
        proof {
            lemma_encode_step(s@, it.index() as int);
        }
        if x == c {
            proof {
                lemma_first_index_of_is(s@, c, it.index() as int);
            }
            return Some(cut_around(s, offset, x, Ghost(it.index() as int)));
        }
        offset = offset + utf8_width(x);
    }
    proof {
        lemma_first_index_of_is(s@, c, s@.len() as int);
    }
    None
}

/// Cuts `s` around its first whitespace character: what stands before it,
/// and what stands after it. `None` where `s` holds no whitespace.
pub fn split_at_whitespace<'a>(s: &'a str) -> (r: Option<(&'a str, &'a str)>)
    ensures
        match r {
            Some((head, tail)) => {
                &&& first_whitespace(s@) < s@.len()
                &&& head@ == s@.take(first_whitespace(s@))
                &&& tail@ == s@.skip(first_whitespace(s@) + 1)
            },
            None => first_whitespace(s@) == s@.len(),
        },
{
    let bytes: usize = s.as_bytes().len();
    let mut offset: usize = 0;
    let chars = s.chars();
    for x in it: chars
        invariant
            it.seq() == s@,
            bytes == encode_utf8(s@).len(),
            offset == encode_utf8(s@.take(it.index() as int)).len(),
            forall|j: int| 0 <= j < it.index() ==> !is_whitespace(s@[j]),
    {
        proof {
            lemma_encode_step(s@, it.index() as int);
        }
        if char_is_whitespace(x) {
            proof {
                lemma_first_whitespace_is(s@, it.index() as int);
            }
            return Some(cut_around(s, offset, x, Ghost(it.index() as int)));
        }
        offset = offset + utf8_width(x);
    }
    proof {
        lemma_first_whitespace_is(s@, s@.len() as int);
    }
    None
}

/// Tells whether two slices hold the same characters.
pub fn str_eq(a: &str, b: &str) -> (r: bool)
    ensures
        r == (a@ == b@),
{
    let x = a.as_bytes();
    let y = b.as_bytes();
    if x.len() != y.len() {
        return false;
    }
    let mut i: usize = 0;
    while i < x.len()
        invariant
            i <= x.len(),
            x.len() == y.len(),
            x@ == encode_utf8(a@),
            y@ == encode_utf8(b@),
            forall|j: int| 0 <= j < i ==> x@[j] == y@[j],
        decreases x.len() - i,
    {
        if x[i] != y[i] {
            return false;
        }
        i = i + 1;
    }
    proof {
        assert(x@ =~= y@);
        lemma_encode_injective(a@, b@);
    }
    true
}

} // verus!
