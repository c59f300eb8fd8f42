//! UTF-8 facts about character prefixes, and the few `String` operations
//! that vstd leaves unspecified.

use vstd::prelude::*;
use vstd::utf8::*;

verus! {

broadcast use vstd::seq::group_seq_axioms, vstd::seq_lib::group_seq_properties;

/// Number of bytes in the UTF-8 encoding of `s`.
pub open spec fn utf8_len(s: Seq<char>) -> nat {
    encode_utf8(s).len()
}

/// Number of bytes in the UTF-8 encoding of the single character `c`.
pub open spec fn char_width(c: char) -> nat {
    encode_scalar(c as u32).len()
}

/// `off` is the byte offset of a character boundary of `s`, i.e. it is the
/// encoded length of some prefix of `s`.
pub open spec fn is_char_offset(s: Seq<char>, off: int) -> bool {
    exists|j: int| 0 <= j <= s.len() && off == utf8_len(#[trigger] s.take(j))
}

/// The characters of `s` whose encodings lie before byte offset `off`.
pub open spec fn prefix_before_byte(s: Seq<char>, off: int) -> Seq<char> {
    decode_utf8(encode_utf8(s).take(off))
}

pub proof fn lemma_encode_utf8_concat(a: Seq<char>, b: Seq<char>)
    ensures
        encode_utf8(a + b) == encode_utf8(a) + encode_utf8(b),
    decreases a.len(),
{
    if a.len() == 0 {
        assert(a + b =~= b);
        assert(encode_utf8(a) =~= Seq::<u8>::empty());
        assert(encode_utf8(a) + encode_utf8(b) =~= encode_utf8(b));
    } else {
        lemma_encode_utf8_concat(a.drop_first(), b);
        assert((a + b).drop_first() =~= a.drop_first() + b);
        assert((a + b)[0] == a[0]);
        assert(encode_utf8(a + b) =~= encode_scalar(a[0] as u32) + encode_utf8(a.drop_first() + b));
        assert(encode_utf8(a) =~= encode_scalar(a[0] as u32) + encode_utf8(a.drop_first()));
    }
}

pub proof fn lemma_encode_single(c: char)
    ensures
        encode_utf8(seq![c]) == encode_scalar(c as u32),
{
    let s = seq![c];
    assert(s.drop_first() =~= Seq::<char>::empty());
    assert(s[0] == c);
    assert(encode_utf8(s) == encode_scalar(s[0] as u32) + encode_utf8(s.drop_first()));
    assert(encode_utf8(Seq::<char>::empty()) =~= Seq::<u8>::empty());
    assert(encode_utf8(s) =~= encode_scalar(c as u32));
}

pub proof fn lemma_char_width_bounds(c: char)
    ensures
        1 <= char_width(c) <= 4,
{
}

pub proof fn lemma_utf8_len_split(s: Seq<char>, j: int)
    requires
        0 <= j <= s.len(),
    ensures
        encode_utf8(s) == encode_utf8(s.take(j)) + encode_utf8(s.skip(j)),
        utf8_len(s) == utf8_len(s.take(j)) + utf8_len(s.skip(j)),
{
    assert(s =~= s.take(j) + s.skip(j));
    lemma_encode_utf8_concat(s.take(j), s.skip(j));
}

pub proof fn lemma_utf8_len_take_step(s: Seq<char>, j: int)
    requires
        0 <= j < s.len(),
    ensures
        utf8_len(s.take(j + 1)) == utf8_len(s.take(j)) + char_width(s[j]),
        encode_utf8(s.take(j + 1)) == encode_utf8(s.take(j)) + encode_scalar(s[j] as u32),
{
    assert(s.take(j + 1) =~= s.take(j) + seq![s[j]]);
    lemma_encode_utf8_concat(s.take(j), seq![s[j]]);
    lemma_encode_single(s[j]);
}

/// The encoded length of prefixes grows strictly with the prefix length.
pub proof fn lemma_utf8_len_take_strict(s: Seq<char>, i: int, j: int)
    requires
        0 <= i < j <= s.len(),
    ensures
        utf8_len(s.take(i)) < utf8_len(s.take(j)),
    decreases j - i,
{
    lemma_utf8_len_take_step(s, j - 1);
    lemma_char_width_bounds(s[j - 1]);
    if i < j - 1 {
        lemma_utf8_len_take_strict(s, i, j - 1);
    }
}

pub proof fn lemma_utf8_len_take_mono(s: Seq<char>, i: int, j: int)
    requires
        0 <= i <= j <= s.len(),
    ensures
        utf8_len(s.take(i)) <= utf8_len(s.take(j)),
{
    if i < j {
        lemma_utf8_len_take_strict(s, i, j);
    }
}

/// Distinct prefixes have distinct encoded lengths.
pub proof fn lemma_utf8_len_take_injective(s: Seq<char>, i: int, j: int)
    requires
        0 <= i <= s.len(),
        0 <= j <= s.len(),
        utf8_len(s.take(i)) == utf8_len(s.take(j)),
    ensures
        i == j,
{
    if i < j {
        lemma_utf8_len_take_strict(s, i, j);
    } else if j < i {
        lemma_utf8_len_take_strict(s, j, i);
    }
}

/// Decoding the bytes before the boundary of the `j`-th character gives the
/// first `j` characters.
pub proof fn lemma_prefix_before_byte(s: Seq<char>, j: int)
    requires
        0 <= j <= s.len(),
    ensures
        prefix_before_byte(s, utf8_len(s.take(j)) as int) == s.take(j),
        encode_utf8(s).take(utf8_len(s.take(j)) as int) == encode_utf8(s.take(j)),
{
    lemma_utf8_len_split(s, j);
    assert(encode_utf8(s).take(utf8_len(s.take(j)) as int) =~= encode_utf8(s.take(j)));
    encode_utf8_decode_utf8(s.take(j));
}

/// The byte at the boundary of the `j`-th character is the leading byte of
/// that character's encoding, and the encoding after that boundary is the
/// encoding of the remaining characters.
pub proof fn lemma_leading_byte(s: Seq<char>, j: int)
    requires
        0 <= j < s.len(),
    ensures
        utf8_len(s.take(j)) < utf8_len(s),
        encode_utf8(s)[utf8_len(s.take(j)) as int] == encode_utf8(s.skip(j))[0],
        length_of_first_scalar(encode_utf8(s.skip(j))) == char_width(s[j]),
{
    lemma_utf8_len_split(s, j);
    assert(s.skip(j).len() > 0);
    assert(s.skip(j)[0] == s[j]);
    encode_utf8_first_scalar(s.skip(j));
    lemma_char_width_bounds(s[j]);
    assert(encode_utf8(s.skip(j)) =~= encode_scalar(s.skip(j)[0] as u32) + encode_utf8(s.skip(j).drop_first()));
}

/// Every character offset is a character boundary of the encoding, and
/// every character boundary of the encoding is a character offset.
pub proof fn lemma_char_boundary_iff_char_offset(s: Seq<char>, off: int)
    ensures
        is_char_boundary(encode_utf8(s), off) <==> is_char_offset(s, off),
    decreases s.len(),
{
    let bytes = encode_utf8(s);
    encode_utf8_valid_utf8(s);
    if off == 0 {
        assert(utf8_len(s.take(0)) == 0) by {
            assert(s.take(0) =~= Seq::<char>::empty());
        }
        assert(is_char_offset(s, off));
    } else if off < 0 || bytes.len() < off {
        assert(is_char_boundary(bytes, off) == false);
        if is_char_offset(s, off) {
            let j = choose|j: int| 0 <= j <= s.len() && off == utf8_len(#[trigger] s.take(j));
            lemma_utf8_len_take_mono(s, j, s.len() as int);
            assert(s.take(s.len() as int) =~= s);
        }
    } else {
        // `s` is non-empty because its encoding is.
        assert(s.len() > 0);
        let w = char_width(s[0]);
        encode_utf8_first_scalar(s);
        let rest = s.drop_first();
        assert(pop_first_scalar(bytes) =~= encode_utf8(rest)) by {
            assert(bytes == encode_scalar(s[0] as u32) + encode_utf8(s.drop_first()));
        }
        assert(is_char_boundary(bytes, off) == is_char_boundary(encode_utf8(rest), off - w));
        lemma_char_boundary_iff_char_offset(rest, off - w);
        if is_char_offset(rest, off - w) {
            let j = choose|j: int| 0 <= j <= rest.len() && off - w == utf8_len(#[trigger] rest.take(j));
            assert(s.take(j + 1) =~= seq![s[0]] + rest.take(j));
            lemma_encode_utf8_concat(seq![s[0]], rest.take(j));
            lemma_encode_single(s[0]);
            assert(utf8_len(s.take(j + 1)) == w + utf8_len(rest.take(j)));
            assert(is_char_offset(s, off));
        }
        if is_char_offset(s, off) {
            let j = choose|j: int| 0 <= j <= s.len() && off == utf8_len(#[trigger] s.take(j));
            assert(j >= 1) by {
                if j == 0 {
                    assert(s.take(0) =~= Seq::<char>::empty());
                }
            }
            assert(s.take(j) =~= seq![s[0]] + rest.take(j - 1));
            lemma_encode_utf8_concat(seq![s[0]], rest.take(j - 1));
            lemma_encode_single(s[0]);
            assert(off - w == utf8_len(rest.take(j - 1)));
            assert(is_char_offset(rest, off - w));
        }
    }
}

/// Width in bytes of the character whose encoding starts with the leading
/// byte `lead`, classified exactly as UTF-8 classifies leading bytes.
pub fn leading_byte_width(lead: u8) -> (w: usize)
    ensures
        w == length_of_first_codepoint(seq![lead]),
{
    if lead <= 0x7f {
        1
    } else if 0xc0 <= lead && lead <= 0xdf {
        2
    } else if 0xe0 <= lead && lead <= 0xef {
        3
    } else {
        4
    }
}

/// Walks forward over at most `max_chars` characters of `s`, starting at the
/// boundary `start` of character `j`.  Returns how many characters were
/// walked and the byte offset reached.
pub fn walk_chars(s: &str, start: usize, max_chars: usize, Ghost(j): Ghost<int>) -> (res: (
    usize,
    usize,
))
    requires
        0 <= j <= s@.len(),
        start == utf8_len(s@.take(j)),
    ensures
        res.0 == if max_chars <= s@.len() - j { max_chars as int } else { s@.len() - j },
        res.1 == utf8_len(s@.take(j + res.0)),
{
    let bytes = s.as_bytes();
    let len = bytes.len();
    proof {
        assert(bytes@ == encode_utf8(s@));
        assert(s@.take(s@.len() as int) =~= s@);
    }
    let mut b = start;
    let mut n: usize = 0;
    while n < max_chars && b < len
        invariant
            0 <= j <= s@.len(),
            bytes@ == encode_utf8(s@),
            len == bytes@.len(),
            j + n <= s@.len(),
            n <= max_chars,
            b == utf8_len(s@.take(j + n)),
            s@.take(s@.len() as int) == s@,
        decreases len - b,
    {
        let ghost i = j + n;
        proof {
            if i == s@.len() {
                assert(false);
            }
            lemma_leading_byte(s@, i);
            lemma_utf8_len_take_step(s@, i);
            lemma_char_width_bounds(s@[i]);
            lemma_utf8_len_take_mono(s@, i + 1, s@.len() as int);
        }
        let w = leading_byte_width(bytes[b]);
        proof {
            assert(encode_utf8(s@.skip(i))[0] == bytes@[b as int]);
            assert(length_of_first_codepoint(encode_utf8(s@.skip(i))) == length_of_first_codepoint(seq![bytes@[b as int]]));
        }
        b = b + w;
        n = n + 1;
    }
    proof {
        if n < max_chars {
            // then b == len, which forces j + n == s.len()
            if j + n < s@.len() {
                lemma_utf8_len_take_strict(s@, j + n, s@.len() as int);
            }
        }
    }
    (n, b)
}

/// The byte offset of the boundary before character `k` of `s`, or the
/// length of `s` when `k` is past its end.
pub fn char_boundary_offset(s: &str, k: usize) -> (off: usize)
    ensures
        off == utf8_len(s@.take(if k <= s@.len() { k as int } else { s@.len() as int })),
{
    proof {
        assert(s@.take(0) =~= Seq::<char>::empty());
    }
    let (_, off) = walk_chars(s, 0, k, Ghost(0));
    off
}

/// Whether `a` and `b` hold the same characters (`str`'s `==`).
#[verifier::external_body]
pub(crate) fn str_eq(a: &str, b: &str) -> (same: bool)
    ensures
        same == (a@ == b@),
{
    a == b
}

/// `a` comes strictly before `b` in lexicographic byte order.
pub open spec fn bytes_before(a: Seq<u8>, b: Seq<u8>) -> bool
    decreases a.len(),
{
    if b.len() == 0 {
        false
    } else if a.len() == 0 {
        true
    } else if a[0] != b[0] {
        a[0] < b[0]
    } else {
        bytes_before(a.drop_first(), b.drop_first())
    }
}

/// `a` sorts strictly before `b` as strings do (by their UTF-8 bytes).
pub open spec fn str_before(a: Seq<char>, b: Seq<char>) -> bool {
    bytes_before(encode_utf8(a), encode_utf8(b))
}

pub proof fn lemma_bytes_before_transitive(a: Seq<u8>, b: Seq<u8>, c: Seq<u8>)
    requires
        bytes_before(a, b),
        bytes_before(b, c),
    ensures
        bytes_before(a, c),
    decreases a.len(),
{
    if a.len() > 0 && a[0] == b[0] && b[0] == c[0] {
        lemma_bytes_before_transitive(a.drop_first(), b.drop_first(), c.drop_first());
    }
}

pub proof fn lemma_bytes_before_irreflexive(a: Seq<u8>)
    ensures
        !bytes_before(a, a),
    decreases a.len(),
{
    if a.len() > 0 {
        lemma_bytes_before_irreflexive(a.drop_first());
    }
}

pub proof fn lemma_bytes_before_asymmetric(a: Seq<u8>, b: Seq<u8>)
    ensures
        !(bytes_before(a, b) && bytes_before(b, a)),
    decreases a.len(),
{
    if a.len() > 0 && b.len() > 0 && a[0] == b[0] {
        lemma_bytes_before_asymmetric(a.drop_first(), b.drop_first());
    }
}

/// Whether `a` sorts strictly before `b` as strings do.
pub fn str_bytes_before(a: &str, b: &str) -> (before: bool)
    ensures
        before == str_before(a@, b@),
{
    let x = a.as_bytes();
    let y = b.as_bytes();
    let mut i: usize = 0;
    while i < x.len() && i < y.len() && x[i] == y[i]
        invariant
            0 <= i <= x@.len(),
            i <= y@.len(),
            bytes_before(x@, y@) == bytes_before(x@.skip(i as int), y@.skip(i as int)),
        decreases x@.len() - i,
    {
        proof {
            assert(x@.skip(i as int).drop_first() =~= x@.skip(i + 1));
            assert(y@.skip(i as int).drop_first() =~= y@.skip(i + 1));
        }
        i += 1;
    }
    if i == y.len() {
        false
    } else if i == x.len() {
        true
    } else {
        x[i] < y[i]
    }
}

/// Appends `t` to `s`.
#[verifier::external_body]
pub(crate) fn string_push_str(s: &mut String, t: &str)
    ensures
        final(s)@ == old(s)@ + t@,
{
    s.push_str(t);
}

/// Empties `s`, keeping its allocation.
#[verifier::external_body]
pub(crate) fn string_clear(s: &mut String)
    ensures
        final(s)@ == Seq::<char>::empty(),
{
    s.clear();
}

/// A new empty string with room for at least `capacity` bytes.
#[verifier::external_body]
pub(crate) fn string_with_capacity(capacity: usize) -> (s: String)
    requires
        capacity <= isize::MAX,
    ensures
        s@ == Seq::<char>::empty(),
{
    String::with_capacity(capacity)
}

/// The number of bytes `s` can hold without reallocating; never less than
/// its length.
#[verifier::external_body]
pub(crate) fn string_capacity(s: &String) -> (cap: usize)
    ensures
        cap >= utf8_len(s@),
{
    s.capacity()
}

/// Reserves room for at least `additional` more bytes; the contents stay.
#[verifier::external_body]
pub(crate) fn string_reserve(s: &mut String, additional: usize)
    requires
        utf8_len(old(s)@) + additional <= isize::MAX,
    ensures
        final(s)@ == old(s)@,
{
    s.reserve(additional);
}



/// The characters of `s`, in order.
pub fn chars_vec(s: &str) -> (v: Vec<char>)
    ensures
        v@ == s@,
{
    let mut v: Vec<char> = Vec::new();
    for c in it: s.chars()
        invariant
            it.seq() == s@,
            v@ == s@.take(it.index() as int),
    {
        v.push(c);
    }
    assert(v@ =~= s@);
    v
}


/// Appends the character `c` to `s`.
#[verifier::external_body]
pub(crate) fn string_push(s: &mut String, c: char)
    ensures
        final(s)@ == old(s)@.push(c),
{
    s.push(c);
}

/// The decimal digit character for `d < 10`.
pub open spec fn digit_char(d: nat) -> char {
    seq!['0', '1', '2', '3', '4', '5', '6', '7', '8', '9'][d as int]
}

/// The decimal representation of `n`, without leading zeros.
pub open spec fn decimal(n: nat) -> Seq<char>
    decreases n,
{
    if n < 10 {
        seq![digit_char(n)]
    } else {
        decimal(n / 10).push(digit_char(n % 10))
    }
}

fn digit(d: usize) -> (c: char)
    requires
        d < 10,
    ensures
        c == digit_char(d as nat),
{
    match d {
        0 => '0',
        1 => '1',
        2 => '2',
        3 => '3',
        4 => '4',
        5 => '5',
        6 => '6',
        7 => '7',
        8 => '8',
        _ => '9',
    }
}

/// The decimal representation of `n`, as `n.to_string()` writes it.
pub fn decimal_string(n: usize) -> (s: String)
    ensures
        s@ == decimal(n as nat),
    decreases n,
{
    if n < 10 {
        let mut s = String::new();
        string_push(&mut s, digit(n));
        assert(s@ =~= seq![digit_char(n as nat)]);
        s
    } else {
        let mut s = decimal_string(n / 10);
        string_push(&mut s, digit(n % 10));
        s
    }
}

/// The decimal representation of `n`, as `n.to_string()` writes it.
pub fn decimal_string_u64(n: u64) -> (s: String)
    ensures
        s@ == decimal(n as nat),
    decreases n,
{
    if n < 10 {
        let mut s = String::new();
        string_push(&mut s, digit(n as usize));
        assert(s@ =~= seq![digit_char(n as nat)]);
        s
    } else {
        let mut s = decimal_string_u64(n / 10);
        string_push(&mut s, digit((n % 10) as usize));
        s
    }
}

/// `s` with every non-overlapping occurrence of the non-empty `pat`,
/// scanning left to right, replaced by `with`.
pub open spec fn replaced(s: Seq<char>, pat: Seq<char>, with: Seq<char>) -> Seq<char>
    recommends
        pat.len() > 0,
    decreases s.len(),
{
    if pat.len() == 0 || s.len() < pat.len() {
        s
    } else if s.take(pat.len() as int) == pat {
        with + replaced(s.skip(pat.len() as int), pat, with)
    } else {
        seq![s[0]] + replaced(s.drop_first(), pat, with)
    }
}

/// Replacing `pat` in `a + pat + b`, where `a` holds no character that
/// starts `pat`, keeps `a`, puts `with` for that `pat`, and goes on in `b`.
pub proof fn lemma_replaced_after_prefix(a: Seq<char>, pat: Seq<char>, b: Seq<char>, with: Seq<char>)
    requires
        pat.len() > 0,
        forall|i: int| 0 <= i < a.len() ==> a[i] != pat[0],
    ensures
        replaced(a + pat + b, pat, with) == a + with + replaced(b, pat, with),
    decreases a.len(),
{
    let s = a + pat + b;
    if a.len() == 0 {
        assert(s =~= pat + b);
        assert(s.take(pat.len() as int) =~= pat);
        assert(s.skip(pat.len() as int) =~= b);
        assert(a + with + replaced(b, pat, with) =~= with + replaced(b, pat, with));
    } else {
        assert(s[0] == a[0]);
        assert(s.take(pat.len() as int)[0] == s[0]);
        assert(s.take(pat.len() as int) != pat);
        let rest = a.drop_first();
        assert forall|i: int| 0 <= i < rest.len() implies rest[i] != pat[0] by {
            assert(rest[i] == a[i + 1]);
        }
        lemma_replaced_after_prefix(rest, pat, b, with);
        assert(s.drop_first() =~= rest + pat + b);
        assert(seq![s[0]] + (rest + with + replaced(b, pat, with)) =~= a + with + replaced(b, pat, with));
    }
}

pub(crate) fn matches_at(s: &Vec<char>, i: usize, pat: &Vec<char>) -> (m: bool)
    requires
        i + pat@.len() <= s@.len(),
    ensures
        m == (s@.subrange(i as int, i + pat@.len()) == pat@),
{
    let slen = s.len();
    let mut k: usize = 0;
    while k < pat.len()
        invariant
            slen == s@.len(),
            i + pat@.len() <= s@.len(),
            0 <= k <= pat@.len(),
            forall|t: int| 0 <= t < k ==> s@[i + t] == pat@[t],
        decreases pat@.len() - k,
    {
        if s[i + k] != pat[k] {
            assert(s@.subrange(i as int, i + pat@.len())[k as int] != pat@[k as int]);
            return false;
        }
        k += 1;
    }
    assert(s@.subrange(i as int, i + pat@.len()) =~= pat@);
    true
}

/// `s` with every occurrence of `pat` replaced by `with`, as `str::replace`
/// computes it for a non-empty pattern.
pub fn replace_all(s: &str, pat: &str, with: &str) -> (r: String)
    requires
        pat@.len() > 0,
    ensures
        r@ == replaced(s@, pat@, with@),
{
    let cs = chars_vec(s);
    let ps = chars_vec(pat);
    let mut out = String::new();
    let mut i: usize = 0;
    let plen = ps.len();
    while i < cs.len()
        invariant
            cs@ == s@,
            ps@ == pat@,
            plen == pat@.len(),
            plen > 0,
            0 <= i <= cs@.len(),
            replaced(s@, pat@, with@) == out@ + replaced(s@.skip(i as int), pat@, with@),
        decreases cs@.len() - i,
    {
        let rest = Ghost(s@.skip(i as int));
        if plen <= cs.len() - i && matches_at(&cs, i, &ps) {
            proof {
                assert(rest@.take(plen as int) =~= s@.subrange(i as int, i + plen));
                assert(rest@.skip(plen as int) =~= s@.skip(i + plen));
            }
            string_push_str(&mut out, with);
            i += plen;
            proof {
                assert(replaced(s@, pat@, with@) =~= out@ + replaced(s@.skip(i as int), pat@, with@));
            }
        } else {
            proof {
                if plen <= cs@.len() - i {
                    assert(rest@.take(plen as int) =~= s@.subrange(i as int, i + plen));
                }
                assert(rest@.drop_first() =~= s@.skip(i + 1));
            }
            string_push(&mut out, cs[i]);
            i += 1;
            proof {
                assert(replaced(s@, pat@, with@) =~= out@ + replaced(s@.skip(i as int), pat@, with@));
            }
        }
    }
    proof {
        assert(s@.skip(i as int) =~= Seq::<char>::empty());
        assert(out@ + Seq::<char>::empty() =~= out@);
    }
    out
}

/// Whether `c` has the Unicode `White_Space` property, which is what
/// `char::is_whitespace` tests.
pub open spec fn is_white_space(c: char) -> bool {
    let n = c as u32;
    (0x9 <= n && n <= 0xD) || n == 0x20 || n == 0x85 || n == 0xA0 || n == 0x1680
        || (0x2000 <= n && n <= 0x200A) || n == 0x2028 || n == 0x2029 || n == 0x202F
        || n == 0x205F || n == 0x3000
}

/// `char::is_whitespace`.
pub fn is_white_space_char(c: char) -> (b: bool)
    ensures
        b == is_white_space(c),
{
    let n = c as u32;
    (0x9 <= n && n <= 0xD) || n == 0x20 || n == 0x85 || n == 0xA0 || n == 0x1680
        || (0x2000 <= n && n <= 0x200A) || n == 0x2028 || n == 0x2029 || n == 0x202F
        || n == 0x205F || n == 0x3000
}

/// `s` without its leading white space.
pub open spec fn trim_start_seq(s: Seq<char>) -> Seq<char>
    decreases s.len(),
{
    if s.len() > 0 && is_white_space(s[0]) {
        trim_start_seq(s.drop_first())
    } else {
        s
    }
}

/// `s` without its trailing white space.
pub open spec fn trim_end_seq(s: Seq<char>) -> Seq<char>
    decreases s.len(),
{
    if s.len() > 0 && is_white_space(s.last()) {
        trim_end_seq(s.drop_last())
    } else {
        s
    }
}

/// `s` without leading and trailing white space, as `str::trim` returns it.
pub open spec fn trimmed(s: Seq<char>) -> Seq<char> {
    trim_end_seq(trim_start_seq(s))
}

/// The characters `cs[from..to]` as a string.
pub fn string_from_range(cs: &Vec<char>, from: usize, to: usize) -> (s: String)
    requires
        from <= to <= cs@.len(),
    ensures
        s@ == cs@.subrange(from as int, to as int),
{
    let mut s = String::new();
    let mut i: usize = from;
    while i < to
        invariant
            from <= i <= to <= cs@.len(),
            s@ == cs@.subrange(from as int, i as int),
        decreases to - i,
    {
        string_push(&mut s, cs[i]);
        i += 1;
        assert(s@ =~= cs@.subrange(from as int, i as int));
    }
    s
}

/// `s` without leading and trailing white space (`str::trim`), as a new string.
pub fn trim_string(s: &str) -> (r: String)
    ensures
        r@ == trimmed(s@),
{
    let cs = chars_vec(s);
    let n = cs.len();
    let mut a: usize = 0;
    while a < n && is_white_space_char(cs[a])
        invariant
            cs@ == s@,
            n == cs@.len(),
            a <= n,
            trim_start_seq(s@) == trim_start_seq(s@.skip(a as int)),
        decreases n - a,
    {
        proof {
            assert(s@.skip(a as int).drop_first() =~= s@.skip(a + 1));
        }
        a += 1;
    }
    proof {
        assert(trim_start_seq(s@.skip(a as int)) == s@.skip(a as int));
        assert(s@.skip(a as int) =~= s@.subrange(a as int, n as int));
    }
    let mut b: usize = n;
    while b > a && is_white_space_char(cs[b - 1])
        invariant
            cs@ == s@,
            n == cs@.len(),
            a <= b <= n,
            trimmed(s@) == trim_end_seq(s@.subrange(a as int, b as int)),
        decreases b - a,
    {
        proof {
            let t = s@.subrange(a as int, b as int);
            assert(t.last() == cs@[b - 1]);
            assert(t.drop_last() =~= s@.subrange(a as int, b - 1));
        }
        b -= 1;
    }
    proof {
        assert(trim_end_seq(s@.subrange(a as int, b as int)) == s@.subrange(a as int, b as int));
    }
    string_from_range(&cs, a, b)
}

/// Whether `needle` occurs in `hay` as a run of consecutive characters.
pub open spec fn contains_seq(hay: Seq<char>, needle: Seq<char>) -> bool {
    exists|i: int|
        0 <= i && i + needle.len() <= hay.len() && #[trigger] hay.subrange(i, i + needle.len()) == needle
}

/// Whether `needle` occurs in `hay` (`str::contains` with a string pattern).
pub fn str_contains(hay: &str, needle: &str) -> (found: bool)
    ensures
        found == contains_seq(hay@, needle@),
{
    let hs = chars_vec(hay);
    let ns = chars_vec(needle);
    let hlen = hs.len();
    let nlen = ns.len();
    if nlen > hlen {
        return false;
    }
    let mut i: usize = 0;
    loop
        invariant
            hs@ == hay@,
            ns@ == needle@,
            hlen == hay@.len(),
            nlen == needle@.len(),
            nlen <= hlen,
            i <= hlen - nlen,
            forall|k: int| 0 <= k < i ==> #[trigger] hay@.subrange(k, k + nlen) != needle@,
        decreases hlen - nlen - i,
    {
        if matches_at(&hs, i, &ns) {
            return true;
        }
        if i == hlen - nlen {
            return false;
        }
        i += 1;
    }
}

/// What `str::to_lowercase` returns for a string holding `s`.
pub uninterp spec fn lowercase(s: Seq<char>) -> Seq<char>;

/// `s` in lower case (`str::to_lowercase`).  The contract names the result
/// and says nothing of the Unicode case mapping that computes it.
#[verifier::external_body]
pub(crate) fn to_lowercase(s: &str) -> (r: String)
    ensures
        r@ == lowercase(s@),
{
    s.to_lowercase()
}

} // verus!
