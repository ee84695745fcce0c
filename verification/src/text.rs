//! The canonical text encoding of pools:
//! `protocol_name|pool_address|tokens|extra`, four fields joined by `|`.
//! The address is `0x` plus 40 lowercase hex digits; the token list joins
//! `address:decimals` entries with `,`; the extra field is `none` or
//! `name:fee`. Parsing splits on the delimiters and rejects anything that
//! does not round-trip.

use vstd::prelude::*;
use crate::types::{Address, DexError, Pool, PoolExtra, PoolV, Protocol, Token, TokenV};

verus! {

/// Relies on `String`'s `FromIterator<char>`: collecting yields exactly the
/// given characters in order.
#[verifier::external_body]
pub fn chars_to_string(v: &Vec<char>) -> (r: String)
    ensures
        r@ == v@,
{
    v.iter().collect()
}

/// The characters of a string slice, in order.
pub fn str_to_chars(s: &str) -> (r: Vec<char>)
    ensures
        r@ == s@,
{
    let n = s.unicode_len();
    let mut r: Vec<char> = Vec::new();
    let mut i: usize = 0;
    while i < n
        invariant
            i <= n,
            n == s@.len(),
            r@.len() == i,
            forall|j: int| 0 <= j < i ==> r@[j] == s@[j],
        decreases n - i,
    {
        r.push(s.get_char(i));
        i = i + 1;
    }
    proof {
        assert(r@ =~= s@);
    }
    r
}

/// Character-exact comparison of two character vectors.
pub fn chars_eq(a: &Vec<char>, b: &Vec<char>) -> (r: bool)
    ensures
        r <==> a@ == b@,
{
    if a.len() != b.len() {
        return false;
    }
    let mut i: usize = 0;
    while i < a.len()
        invariant
            a@.len() == b@.len(),
            i <= a@.len(),
            forall|j: int| 0 <= j < i ==> a@[j] == b@[j],
        decreases a@.len() - i,
    {
        if a[i] != b[i] {
            return false;
        }
        i = i + 1;
    }
    proof {
        assert(a@ =~= b@);
    }
    true
}

/// Appends every character of `src` to `dst`.
pub fn push_chars(dst: &mut Vec<char>, src: &Vec<char>)
    ensures
        final(dst)@ == old(dst)@ + src@,
{
    let mut i: usize = 0;
    while i < src.len()
        invariant
            i <= src@.len(),
            dst@ =~= old(dst)@ + src@.take(i as int),
        decreases src@.len() - i,
    {
        dst.push(src[i]);
        i = i + 1;
    }
    proof {
        assert(dst@ =~= old(dst)@ + src@);
    }
}

/// True when `s` holds no occurrence of `c`.
pub open spec fn free_of(s: Seq<char>, c: char) -> bool {
    forall|i: int| 0 <= i < s.len() ==> s[i] != c
}

/// Splitting `s` on `c`: the parts between occurrences, in order. A string
/// without `c` is one part; every occurrence separates two (possibly empty)
/// parts.
pub open spec fn split_on(s: Seq<char>, c: char) -> Seq<Seq<char>>
    decreases s.len(),
{
    if s.len() == 0 {
        seq![Seq::<char>::empty()]
    } else if s[0] == c {
        seq![Seq::<char>::empty()] + split_on(s.drop_first(), c)
    } else {
        let rest = split_on(s.drop_first(), c);
        seq![seq![s[0]] + rest[0]] + rest.drop_first()
    }
}

/// A string free of the separator is exactly one part.
pub proof fn lemma_split_whole(s: Seq<char>, c: char)
    requires
        free_of(s, c),
    ensures
        split_on(s, c) == seq![s],
    decreases s.len(),
{
    if s.len() == 0 {
        assert(split_on(s, c) == seq![s]) by {
            assert(s =~= Seq::<char>::empty());
            assert(split_on(s, c) =~~= seq![s]);
        }
    } else {
        assert(free_of(s.drop_first(), c)) by {
            assert(forall|i: int|
                0 <= i < s.drop_first().len() ==> s.drop_first()[i] == s[i + 1]);
        }
        lemma_split_whole(s.drop_first(), c);
        let rest = split_on(s.drop_first(), c);
        assert(rest[0] == s.drop_first());
        assert(seq![s[0]] + s.drop_first() =~= s);
        assert(rest.drop_first() =~= Seq::<Seq<char>>::empty());
        assert(split_on(s, c) =~~= seq![s]);
    }
}

/// Splitting `a + [c] + b` where `a` is free of `c` yields `a` and then the
/// parts of `b`.
pub proof fn lemma_split_sep(a: Seq<char>, b: Seq<char>, c: char)
    requires
        free_of(a, c),
    ensures
        split_on(a + seq![c] + b, c) == seq![a] + split_on(b, c),
    decreases a.len(),
{
    let s = a + seq![c] + b;
    if a.len() == 0 {
        assert(s.len() > 0 && s[0] == c);
        assert(s.drop_first() =~= b);
        assert(split_on(s, c) == seq![Seq::<char>::empty()] + split_on(b, c));
        assert(seq![Seq::<char>::empty()] + split_on(b, c) =~~= seq![a] + split_on(b, c)) by {
            assert(a =~= Seq::<char>::empty());
        }
    } else {
        assert(s[0] == a[0] && a[0] != c);
        assert(free_of(a.drop_first(), c)) by {
            assert(forall|i: int|
                0 <= i < a.drop_first().len() ==> a.drop_first()[i] == a[i + 1]);
        }
        lemma_split_sep(a.drop_first(), b, c);
        assert(s.drop_first() =~= a.drop_first() + seq![c] + b);
        let rest = split_on(s.drop_first(), c);
        assert(rest == seq![a.drop_first()] + split_on(b, c));
        assert(rest[0] == a.drop_first());
        assert(seq![s[0]] + rest[0] =~= a);
        assert(rest.drop_first() =~= split_on(b, c));
        assert(split_on(s, c) =~~= seq![a] + split_on(b, c));
    }
}

/// The views of a vector of character vectors.
pub open spec fn views_of(parts: Seq<Vec<char>>) -> Seq<Seq<char>> {
    parts.map_values(|p: Vec<char>| p@)
}

/// Splits `s` on the separator `c`, as executable code.
pub fn split_char(s: &Vec<char>, c: char) -> (r: Vec<Vec<char>>)
    ensures
        views_of(r@) == split_on(s@, c),
{
    let mut done: Vec<Vec<char>> = Vec::new();
    let mut cur: Vec<char> = Vec::new();
    let mut i: usize = 0;
    proof {
        assert(cur@ + s@.skip(0) =~= s@);
        assert(views_of(done@) =~= Seq::<Seq<char>>::empty());
        assert(Seq::<Seq<char>>::empty() + split_on(s@, c) =~= split_on(s@, c));
    }
    while i < s.len()
        invariant
            i <= s@.len(),
            free_of(cur@, c),
            split_on(s@, c) == views_of(done@) + split_on(cur@ + s@.skip(i as int), c),
        decreases s@.len() - i,
    {
        let d = s[i];
        if d == c {
            proof {
                assert(cur@ + s@.skip(i as int) =~= cur@ + seq![c] + s@.skip(i + 1));
                lemma_split_sep(cur@, s@.skip(i + 1), c);
                assert(views_of(done@.push(cur)) =~= views_of(done@) + seq![cur@]);
                assert(views_of(done@) + (seq![cur@] + split_on(s@.skip(i + 1), c)) =~~= views_of(
                    done@.push(cur),
                ) + split_on(s@.skip(i + 1), c));
            }
            done.push(cur);
            cur = Vec::new();
            proof {
                assert(cur@ + s@.skip(i + 1) =~= s@.skip(i + 1));
            }
        } else {
            proof {
                assert((cur@ + s@.skip(i as int)) =~= (cur@.push(d) + s@.skip(i + 1)));
                assert(free_of(cur@.push(d), c));
            }
            cur.push(d);
        }
        i = i + 1;
    }
    proof {
        assert(cur@ + s@.skip(i as int) =~= cur@);
        lemma_split_whole(cur@, c);
        assert(views_of(done@.push(cur)) =~= views_of(done@) + seq![cur@]);
        assert(views_of(done@) + seq![cur@] =~~= views_of(done@.push(cur)));
    }
    done.push(cur);
    done
}

/// The lowercase hex digit of a value below 16.
pub open spec fn hex_digit(n: int) -> char {
    if n == 0 { '0' } else if n == 1 { '1' } else if n == 2 { '2' } else if n == 3 { '3' }
    else if n == 4 { '4' } else if n == 5 { '5' } else if n == 6 { '6' } else if n == 7 { '7' }
    else if n == 8 { '8' } else if n == 9 { '9' } else if n == 10 { 'a' } else if n == 11 { 'b' }
    else if n == 12 { 'c' } else if n == 13 { 'd' } else if n == 14 { 'e' } else { 'f' }
}

/// The value of a hex digit, or -1 for any other character.
pub open spec fn hex_val(c: char) -> int {
    if c == '0' { 0 } else if c == '1' { 1 } else if c == '2' { 2 } else if c == '3' { 3 }
    else if c == '4' { 4 } else if c == '5' { 5 } else if c == '6' { 6 } else if c == '7' { 7 }
    else if c == '8' { 8 } else if c == '9' { 9 } else if c == 'a' { 10 } else if c == 'b' { 11 }
    else if c == 'c' { 12 } else if c == 'd' { 13 } else if c == 'e' { 14 } else if c == 'f' { 15 }
    else { -1 }
}

/// The lowercase hex encoding of a byte sequence, two digits per byte.
pub open spec fn hex_of(b: Seq<u8>) -> Seq<char>
    decreases b.len(),
{
    if b.len() == 0 {
        Seq::<char>::empty()
    } else {
        seq![hex_digit(b[0] as int / 16), hex_digit(b[0] as int % 16)] + hex_of(b.drop_first())
    }
}

/// Decodes a hex string into bytes; any odd length or non-digit fails.
pub open spec fn parse_hex(s: Seq<char>) -> Option<Seq<u8>>
    decreases s.len(),
{
    if s.len() == 0 {
        Some(Seq::<u8>::empty())
    } else if s.len() == 1 {
        None
    } else {
        let hi = hex_val(s[0]);
        let lo = hex_val(s[1]);
        if hi < 0 || lo < 0 {
            None
        } else {
            match parse_hex(s.skip(2)) {
                Some(rest) => Some(seq![(hi * 16 + lo) as u8] + rest),
                None => None,
            }
        }
    }
}

pub proof fn lemma_hex_of_len(b: Seq<u8>)
    ensures
        hex_of(b).len() == 2 * b.len(),
    decreases b.len(),
{
    if b.len() > 0 {
        lemma_hex_of_len(b.drop_first());
    }
}

/// Every character of a hex encoding is a hex digit.
pub proof fn lemma_hex_of_digits(b: Seq<u8>)
    ensures
        forall|i: int| 0 <= i < hex_of(b).len() ==> hex_val(#[trigger] hex_of(b)[i]) >= 0,
    decreases b.len(),
{
    if b.len() > 0 {
        lemma_hex_of_digits(b.drop_first());
        let head = seq![hex_digit(b[0] as int / 16), hex_digit(b[0] as int % 16)];
        assert(hex_of(b) == head + hex_of(b.drop_first()));
        assert forall|i: int| 0 <= i < hex_of(b).len() implies hex_val(
            #[trigger] hex_of(b)[i],
        ) >= 0 by {
            if i < 2 {
                assert(hex_of(b)[i] == head[i]);
            } else {
                assert(hex_of(b)[i] == hex_of(b.drop_first())[i - 2]);
            }
        }
    }
}

/// Hex decoding undoes hex encoding.
pub proof fn lemma_hex_round_trip(b: Seq<u8>)
    ensures
        parse_hex(hex_of(b)) == Some(b),
    decreases b.len(),
{
    let s = hex_of(b);
    if b.len() == 0 {
        assert(parse_hex(s) == Some(b)) by {
            assert(b =~= Seq::<u8>::empty());
        }
    } else {
        lemma_hex_round_trip(b.drop_first());
        lemma_hex_of_len(b.drop_first());
        assert(s.skip(2) =~= hex_of(b.drop_first()));
        let hi = hex_val(s[0]);
        let lo = hex_val(s[1]);
        assert(hi == b[0] as int / 16 && lo == b[0] as int % 16);
        assert((hi * 16 + lo) as u8 == b[0]);
        assert(seq![b[0]] + b.drop_first() =~= b);
    }
}

/// The digit of a value below 10.
pub open spec fn dec_digit(n: int) -> char {
    if n == 0 { '0' } else if n == 1 { '1' } else if n == 2 { '2' } else if n == 3 { '3' }
    else if n == 4 { '4' } else if n == 5 { '5' } else if n == 6 { '6' } else if n == 7 { '7' }
    else if n == 8 { '8' } else { '9' }
}

/// The value of a decimal digit, or -1 for any other character.
pub open spec fn dec_val(c: char) -> int {
    if c == '0' { 0 } else if c == '1' { 1 } else if c == '2' { 2 } else if c == '3' { 3 }
    else if c == '4' { 4 } else if c == '5' { 5 } else if c == '6' { 6 } else if c == '7' { 7 }
    else if c == '8' { 8 } else if c == '9' { 9 } else { -1 }
}

/// The decimal encoding of a number, without leading zeros.
pub open spec fn dec_of(n: nat) -> Seq<char>
    decreases n,
{
    if n < 10 {
        seq![dec_digit(n as int)]
    } else {
        dec_of(n / 10) + seq![dec_digit((n % 10) as int)]
    }
}

/// Parses a nonempty digit string as a number; leading zeros are accepted.
pub open spec fn parse_dec(s: Seq<char>) -> Option<nat>
    decreases s.len(),
{
    if s.len() == 0 {
        None
    } else if s.len() == 1 {
        if dec_val(s[0]) >= 0 {
            Some(dec_val(s[0]) as nat)
        } else {
            None
        }
    } else {
        let d = dec_val(s.last());
        if d < 0 {
            None
        } else {
            match parse_dec(s.drop_last()) {
                Some(hi) => Some((hi * 10 + d) as nat),
                None => None,
            }
        }
    }
}

/// Every character of a decimal encoding is a digit.
pub proof fn lemma_dec_of_digits(n: nat)
    ensures
        dec_of(n).len() >= 1,
        forall|i: int| 0 <= i < dec_of(n).len() ==> dec_val(#[trigger] dec_of(n)[i]) >= 0,
    decreases n,
{
    if n >= 10 {
        lemma_dec_of_digits(n / 10);
    }
}

/// Decimal parsing undoes decimal encoding.
pub proof fn lemma_dec_round_trip(n: nat)
    ensures
        parse_dec(dec_of(n)) == Some(n),
    decreases n,
{
    if n >= 10 {
        lemma_dec_round_trip(n / 10);
        lemma_dec_of_digits(n / 10);
        let s = dec_of(n);
        assert(s.drop_last() =~= dec_of(n / 10));
        assert(s.last() == dec_digit((n % 10) as int));
        assert(dec_val(s.last()) == n % 10);
        assert((n / 10) * 10 + n % 10 == n) by {
            vstd::arithmetic::div_mod::lemma_fundamental_div_mod(n as int, 10);
        }
    }
}

/// A non-digit anywhere makes a decimal string unparseable.
pub proof fn lemma_parse_dec_bad(s: Seq<char>, i: int)
    requires
        0 <= i < s.len(),
        dec_val(s[i]) < 0,
    ensures
        parse_dec(s) is None,
    decreases s.len(),
{
    if s.len() > 1 {
        if i == s.len() - 1 {
        } else {
            assert(s.drop_last()[i] == s[i]);
            lemma_parse_dec_bad(s.drop_last(), i);
        }
    }
}

/// The hex digit of `n`, as executable code.
fn hex_digit_char(n: u8) -> (r: char)
    requires
        n < 16,
    ensures
        r == hex_digit(n as int),
{
    if n == 0 { '0' } else if n == 1 { '1' } else if n == 2 { '2' } else if n == 3 { '3' }
    else if n == 4 { '4' } else if n == 5 { '5' } else if n == 6 { '6' } else if n == 7 { '7' }
    else if n == 8 { '8' } else if n == 9 { '9' } else if n == 10 { 'a' } else if n == 11 { 'b' }
    else if n == 12 { 'c' } else if n == 13 { 'd' } else if n == 14 { 'e' } else { 'f' }
}

/// The value of a hex digit, as executable code.
fn hex_val_char(c: char) -> (r: Option<u8>)
    ensures
        match r {
            Some(v) => hex_val(c) == v as int && v < 16,
            None => hex_val(c) < 0,
        },
{
    if c == '0' { Some(0) } else if c == '1' { Some(1) } else if c == '2' { Some(2) }
    else if c == '3' { Some(3) } else if c == '4' { Some(4) } else if c == '5' { Some(5) }
    else if c == '6' { Some(6) } else if c == '7' { Some(7) } else if c == '8' { Some(8) }
    else if c == '9' { Some(9) } else if c == 'a' { Some(10) } else if c == 'b' { Some(11) }
    else if c == 'c' { Some(12) } else if c == 'd' { Some(13) } else if c == 'e' { Some(14) }
    else if c == 'f' { Some(15) } else { None }
}

/// Hex encoding respects concatenation.
pub proof fn lemma_hex_of_append(a: Seq<u8>, b: Seq<u8>)
    ensures
        hex_of(a + b) == hex_of(a) + hex_of(b),
    decreases a.len(),
{
    if a.len() == 0 {
        assert(a + b =~= b);
        assert(hex_of(a) + hex_of(b) =~= hex_of(b));
    } else {
        assert((a + b).drop_first() =~= a.drop_first() + b);
        lemma_hex_of_append(a.drop_first(), b);
        assert((a + b)[0] == a[0]);
        assert(hex_of(a + b) =~= hex_of(a) + hex_of(b));
    }
}

/// Hex-encodes a byte vector.
pub fn hex_encode(b: &Vec<u8>) -> (r: Vec<char>)
    ensures
        r@ == hex_of(b@),
{
    let mut r: Vec<char> = Vec::new();
    let mut i: usize = 0;
    while i < b.len()
        invariant
            i <= b@.len(),
            r@ == hex_of(b@.take(i as int)),
        decreases b@.len() - i,
    {
        let x = b[i];
        proof {
            assert(b@.take(i + 1) =~= b@.take(i as int) + seq![b@[i as int]]);
            lemma_hex_of_append(b@.take(i as int), seq![b@[i as int]]);
            assert(seq![b@[i as int]].drop_first() =~= Seq::<u8>::empty());
            assert(hex_of(Seq::<u8>::empty()).len() == 0);
            assert(hex_of(seq![b@[i as int]]) =~= seq![
                hex_digit(x as int / 16),
                hex_digit(x as int % 16),
            ]);
        }
        r.push(hex_digit_char(x / 16));
        r.push(hex_digit_char(x % 16));
        i = i + 1;
        proof {
            assert(r@ =~= hex_of(b@.take(i as int)));
        }
    }
    proof {
        assert(b@.take(b@.len() as int) =~= b@);
    }
    r
}

/// Decodes a hex character vector into bytes.
pub fn hex_decode(s: &Vec<char>) -> (r: Option<Vec<u8>>)
    ensures
        match r {
            Some(b) => parse_hex(s@) == Some(b@),
            None => parse_hex(s@) is None,
        },
{
    if s.len() % 2 != 0 {
        proof {
            lemma_parse_hex_odd(s@);
        }
        return None;
    }
    let mut out: Vec<u8> = Vec::new();
    let mut i: usize = 0;
    proof {
        assert(s@.skip(0) =~= s@);
        let p = parse_hex(s@);
        if p is Some {
            assert(out@ + p->0 =~= p->0);
        }
    }
    while i < s.len()
        invariant
            i <= s@.len(),
            i % 2 == 0,
            s@.len() % 2 == 0,
            parse_hex(s@) == (match parse_hex(s@.skip(i as int)) {
                Some(rest) => Some(out@ + rest),
                None => None::<Seq<u8>>,
            }),
        decreases s@.len() - i,
    {
        let hi = match hex_val_char(s[i]) {
            Some(v) => v,
            None => {
                return None;
            },
        };
        let lo = match hex_val_char(s[i + 1]) {
            Some(v) => v,
            None => {
                return None;
            },
        };
        proof {
            let tail = s@.skip(i as int);
            assert(tail.len() >= 2);
            assert(tail[0] == s@[i as int] && tail[1] == s@[i as int + 1]);
            assert(tail.skip(2) =~= s@.skip(i + 2));
            let p = parse_hex(s@.skip(i + 2));
            if p is Some {
                let r2 = p->0;
                assert(out@ + (seq![(hi * 16 + lo) as u8] + r2) =~= out@.push((hi * 16 + lo) as u8)
                    + r2);
            }
        }
        out.push(hi * 16 + lo);
        i = i + 2;
    }
    proof {
        assert(s@.skip(i as int).len() == 0);
        assert(parse_hex(s@.skip(i as int)) == Some(Seq::<u8>::empty()));
        assert(out@ + Seq::<u8>::empty() =~= out@);
    }
    Some(out)
}

/// A hex string of odd length never parses.
pub proof fn lemma_parse_hex_odd(s: Seq<char>)
    requires
        s.len() % 2 == 1,
    ensures
        parse_hex(s) is None,
    decreases s.len(),
{
    if s.len() > 1 {
        lemma_parse_hex_odd(s.skip(2));
    }
}

/// The digit of `n`, as executable code.
fn dec_digit_char(n: u8) -> (r: char)
    requires
        n < 10,
    ensures
        r == dec_digit(n as int),
{
    if n == 0 { '0' } else if n == 1 { '1' } else if n == 2 { '2' } else if n == 3 { '3' }
    else if n == 4 { '4' } else if n == 5 { '5' } else if n == 6 { '6' } else if n == 7 { '7' }
    else if n == 8 { '8' } else { '9' }
}

/// The value of a decimal digit, as executable code.
fn dec_val_char(c: char) -> (r: Option<u8>)
    ensures
        match r {
            Some(v) => dec_val(c) == v as int && v < 10,
            None => dec_val(c) < 0,
        },
{
    if c == '0' { Some(0) } else if c == '1' { Some(1) } else if c == '2' { Some(2) }
    else if c == '3' { Some(3) } else if c == '4' { Some(4) } else if c == '5' { Some(5) }
    else if c == '6' { Some(6) } else if c == '7' { Some(7) } else if c == '8' { Some(8) }
    else if c == '9' { Some(9) } else { None }
}

/// The decimal encoding of a `u64`.
pub fn format_u64(v: u64) -> (r: Vec<char>)
    ensures
        r@ == dec_of(v as nat),
    decreases v,
{
    if v < 10 {
        let mut r: Vec<char> = Vec::new();
        r.push(dec_digit_char(v as u8));
        proof {
            assert(r@ =~= dec_of(v as nat));
        }
        r
    } else {
        let mut r = format_u64(v / 10);
        r.push(dec_digit_char((v % 10) as u8));
        proof {
            assert(r@ =~= dec_of(v as nat));
        }
        r
    }
}

/// Parses a digit vector as a `u64`; a non-digit, an empty string, or a
/// value over `u64::MAX` fails.
pub fn parse_dec_u64(s: &Vec<char>) -> (r: Option<u64>)
    ensures
        match r {
            Some(v) => parse_dec(s@) == Some(v as nat),
            None => parse_dec(s@) is None || (parse_dec(s@) matches Some(n) && n > u64::MAX),
        },
{
    if s.len() == 0 {
        return None;
    }
    let mut acc: u64 = 0;
    let mut over: bool = false;
    let ghost mut gval: nat = 0nat;
    let mut i: usize = 0;
    while i < s.len()
        invariant
            0 <= i <= s@.len(),
            s@.len() >= 1,
            i >= 1 ==> parse_dec(s@.take(i as int)) == Some(gval),
            i >= 1 && !over ==> gval == acc as nat,
            i >= 1 && over ==> gval > u64::MAX,
            i == 0 ==> !over,
        decreases s@.len() - i,
    {
        let d = match dec_val_char(s[i]) {
            Some(v) => v,
            None => {
                proof {
                    lemma_parse_dec_bad(s@, i as int);
                }
                return None;
            },
        };
        proof {
            if i >= 1 {
                let t = s@.take(i + 1);
                assert(t.len() == i + 1 >= 2);
                assert(t.drop_last() =~= s@.take(i as int));
                assert(t.last() == s@[i as int]);
                gval = (gval * 10 + d as nat) as nat;
            } else {
                let t = s@.take(1);
                assert(t.len() == 1 && t[0] == s@[0]);
                gval = d as nat;
            }
        }
        if i == 0 {
            acc = d as u64;
        } else if over {
            proof {
                assert(gval > u64::MAX);
            }
        } else {
            let wide: u128 = (acc as u128) * 10 + (d as u128);
            if wide > u64::MAX as u128 {
                over = true;
            } else {
                acc = wide as u64;
            }
        }
        i = i + 1;
    }
    proof {
        assert(s@.take(s@.len() as int) =~= s@);
    }
    if over {
        None
    } else {
        Some(acc)
    }
}

/// Copies `s[from..to]` into a fresh vector.
pub fn copy_chars(s: &Vec<char>, from: usize, to: usize) -> (r: Vec<char>)
    requires
        from <= to <= s@.len(),
    ensures
        r@ == s@.subrange(from as int, to as int),
{
    let mut r: Vec<char> = Vec::new();
    let mut i: usize = from;
    while i < to
        invariant
            from <= i <= to <= s@.len(),
            r@ =~= s@.subrange(from as int, i as int),
        decreases to - i,
    {
        r.push(s[i]);
        i = i + 1;
    }
    proof {
        assert(r@ =~= s@.subrange(from as int, to as int));
    }
    r
}

/// The canonical display name of a protocol.
pub open spec fn protocol_name(p: Protocol) -> Seq<char> {
    match p {
        Protocol::UniSwapV2 => "uniswapv2"@,
        Protocol::UniSwapV3 => "uniswapv3"@,
    }
}

/// The extra field of a pool without protocol parameters.
pub open spec fn none_text() -> Seq<char> {
    "none"@
}

/// An address in text: `0x` and 40 lowercase hex digits.
pub open spec fn addr_text(a: Seq<u8>) -> Seq<char> {
    seq!['0', 'x'] + hex_of(a)
}

/// A token in text: its address, a colon, its decimals.
pub open spec fn token_text(t: TokenV) -> Seq<char> {
    addr_text(t.address) + seq![':'] + dec_of(t.decimals as nat)
}

/// The token list in text, comma-separated.
pub open spec fn tokens_text(ts: Seq<TokenV>) -> Seq<char>
    decreases ts.len(),
{
    if ts.len() == 0 {
        Seq::<char>::empty()
    } else if ts.len() == 1 {
        token_text(ts[0])
    } else {
        token_text(ts[0]) + seq![','] + tokens_text(ts.drop_first())
    }
}

/// The extra field in text: `none`, or the protocol name, a colon, the fee.
pub open spec fn extra_text(e: PoolExtra) -> Seq<char> {
    match e {
        PoolExtra::NoExtra => none_text(),
        PoolExtra::UniSwapV2 { fee } => protocol_name(Protocol::UniSwapV2) + seq![':'] + dec_of(
            fee as nat,
        ),
        PoolExtra::UniSwapV3 { fee } => protocol_name(Protocol::UniSwapV3) + seq![':'] + dec_of(
            fee as nat,
        ),
    }
}

/// The canonical text of a pool: four fields joined by `|`.
pub open spec fn pool_text(p: PoolV) -> Seq<char> {
    protocol_name(p.protocol) + seq!['|'] + addr_text(p.pool) + seq!['|'] + tokens_text(p.tokens)
        + seq!['|'] + extra_text(p.extra)
}

pub open spec fn spec_parse_protocol(s: Seq<char>) -> Option<Protocol> {
    if s == protocol_name(Protocol::UniSwapV2) {
        Some(Protocol::UniSwapV2)
    } else if s == protocol_name(Protocol::UniSwapV3) {
        Some(Protocol::UniSwapV3)
    } else {
        None
    }
}

pub open spec fn spec_parse_address(s: Seq<char>) -> Option<Seq<u8>> {
    if s.len() == 42 && s[0] == '0' && s[1] == 'x' {
        match parse_hex(s.skip(2)) {
            Some(b) => if b.len() == 20 {
                Some(b)
            } else {
                None
            },
            None => None,
        }
    } else {
        None
    }
}

pub open spec fn spec_parse_token(s: Seq<char>) -> Option<TokenV> {
    let parts = split_on(s, ':');
    if parts.len() == 2 {
        match (spec_parse_address(parts[0]), parse_dec(parts[1])) {
            (Some(a), Some(d)) => if d <= 255 {
                Some(TokenV { address: a, decimals: d as u8 })
            } else {
                None
            },
            _ => None,
        }
    } else {
        None
    }
}

pub open spec fn parse_token_list(parts: Seq<Seq<char>>) -> Option<Seq<TokenV>>
    decreases parts.len(),
{
    if parts.len() == 0 {
        Some(Seq::<TokenV>::empty())
    } else {
        match (spec_parse_token(parts[0]), parse_token_list(parts.drop_first())) {
            (Some(t), Some(r)) => Some(seq![t] + r),
            _ => None,
        }
    }
}

pub open spec fn spec_parse_tokens(s: Seq<char>) -> Option<Seq<TokenV>> {
    parse_token_list(split_on(s, ','))
}

pub open spec fn spec_parse_extra(s: Seq<char>) -> Option<PoolExtra> {
    if s == none_text() {
        Some(PoolExtra::NoExtra)
    } else {
        let parts = split_on(s, ':');
        if parts.len() == 2 {
            match parse_dec(parts[1]) {
                Some(f) => if f <= u64::MAX {
                    if parts[0] == protocol_name(Protocol::UniSwapV2) {
                        Some(PoolExtra::UniSwapV2 { fee: f as u64 })
                    } else if parts[0] == protocol_name(Protocol::UniSwapV3) {
                        Some(PoolExtra::UniSwapV3 { fee: f as u64 })
                    } else {
                        None
                    }
                } else {
                    None
                },
                None => None,
            }
        } else {
            None
        }
    }
}

/// The address text holds only `0`, `x` and hex digits: free of every
/// delimiter.
pub proof fn lemma_addr_text_free(a: Seq<u8>)
    ensures
        free_of(addr_text(a), '|'),
        free_of(addr_text(a), ','),
        free_of(addr_text(a), ':'),
{
    lemma_hex_of_digits(a);
    let s = addr_text(a);
    assert forall|i: int| 0 <= i < s.len() implies s[i] != '|' && s[i] != ',' && s[i] != ':' by {
        if i < 2 {
            assert(s[i] == seq!['0', 'x'][i]);
        } else {
            assert(s[i] == hex_of(a)[i - 2]);
            assert(hex_val(hex_of(a)[i - 2]) >= 0);
        }
    }
}

/// Decimal text is free of every delimiter.
pub proof fn lemma_dec_text_free(n: nat)
    ensures
        free_of(dec_of(n), '|'),
        free_of(dec_of(n), ','),
        free_of(dec_of(n), ':'),
{
    lemma_dec_of_digits(n);
    assert forall|i: int| 0 <= i < dec_of(n).len() implies dec_of(n)[i] != '|' && dec_of(n)[i]
        != ',' && dec_of(n)[i] != ':' by {
        assert(dec_val(dec_of(n)[i]) >= 0);
    }
}

/// A protocol name has no delimiter characters.
pub proof fn lemma_protocol_name_free(p: Protocol)
    ensures
        free_of(protocol_name(p), '|'),
        free_of(protocol_name(p), ','),
        free_of(protocol_name(p), ':'),
        protocol_name(p).len() == 9,
{
    reveal_strlit("uniswapv2");
    reveal_strlit("uniswapv3");
}

/// Token text has no `|` and no `,`.
pub proof fn lemma_token_text_free(t: TokenV)
    ensures
        free_of(token_text(t), '|'),
        free_of(token_text(t), ','),
{
    lemma_addr_text_free(t.address);
    lemma_dec_text_free(t.decimals as nat);
    let s = token_text(t);
    let a = addr_text(t.address);
    let d = dec_of(t.decimals as nat);
    assert forall|i: int| 0 <= i < s.len() implies s[i] != '|' && s[i] != ',' by {
        if i < a.len() {
            assert(s[i] == a[i]);
        } else if i == a.len() {
            assert(s[i] == ':');
        } else {
            assert(s[i] == d[i - a.len() - 1]);
        }
    }
}

/// The token list text has no `|`.
pub proof fn lemma_tokens_text_free(ts: Seq<TokenV>)
    ensures
        free_of(tokens_text(ts), '|'),
    decreases ts.len(),
{
    if ts.len() == 1 {
        lemma_token_text_free(ts[0]);
    } else if ts.len() > 1 {
        lemma_token_text_free(ts[0]);
        lemma_tokens_text_free(ts.drop_first());
        let s = tokens_text(ts);
        let h = token_text(ts[0]);
        let r = tokens_text(ts.drop_first());
        assert forall|i: int| 0 <= i < s.len() implies s[i] != '|' by {
            if i < h.len() {
                assert(s[i] == h[i]);
            } else if i == h.len() {
                assert(s[i] == ',');
            } else {
                assert(s[i] == r[i - h.len() - 1]);
            }
        }
    }
}

/// Extra text has no `|`.
pub proof fn lemma_extra_text_free(e: PoolExtra)
    ensures
        free_of(extra_text(e), '|'),
{
    match e {
        PoolExtra::NoExtra => {
            reveal_strlit("none");
        },
        PoolExtra::UniSwapV2 { fee } => {
            lemma_name_fee_free(Protocol::UniSwapV2, fee);
        },
        PoolExtra::UniSwapV3 { fee } => {
            lemma_name_fee_free(Protocol::UniSwapV3, fee);
        },
    }
}

proof fn lemma_name_fee_free(p: Protocol, fee: u64)
    ensures
        free_of(protocol_name(p) + seq![':'] + dec_of(fee as nat), '|'),
{
    lemma_protocol_name_free(p);
    lemma_dec_text_free(fee as nat);
    let s = protocol_name(p) + seq![':'] + dec_of(fee as nat);
    let n = protocol_name(p);
    let d = dec_of(fee as nat);
    assert forall|i: int| 0 <= i < s.len() implies s[i] != '|' by {
        if i < n.len() {
            assert(s[i] == n[i]);
        } else if i == n.len() {
            assert(s[i] == ':');
        } else {
            assert(s[i] == d[i - n.len() - 1]);
        }
    }
}

/// The two protocol names are distinct, and parsing a name returns its
/// protocol.
pub proof fn lemma_protocol_round_trip(p: Protocol)
    ensures
        spec_parse_protocol(protocol_name(p)) == Some(p),
{
    reveal_strlit("uniswapv2");
    reveal_strlit("uniswapv3");
    assert(protocol_name(Protocol::UniSwapV2)[8] == '2');
    assert(protocol_name(Protocol::UniSwapV3)[8] == '3');
}

/// Parsing the address text of a 20-byte address returns the address.
pub proof fn lemma_addr_round_trip(a: Seq<u8>)
    requires
        a.len() == 20,
    ensures
        spec_parse_address(addr_text(a)) == Some(a),
{
    let s = addr_text(a);
    lemma_hex_of_len(a);
    assert(s.len() == 42);
    assert(s[0] == '0' && s[1] == 'x');
    assert(s.skip(2) =~= hex_of(a));
    lemma_hex_round_trip(a);
}

/// Parsing the token text of a well-formed token returns the token.
pub proof fn lemma_token_round_trip(t: TokenV)
    requires
        t.address.len() == 20,
    ensures
        spec_parse_token(token_text(t)) == Some(t),
{
    let s = token_text(t);
    let a = addr_text(t.address);
    let d = dec_of(t.decimals as nat);
    lemma_addr_text_free(t.address);
    assert(s =~= a + seq![':'] + d);
    lemma_split_sep(a, d, ':');
    lemma_dec_text_free(t.decimals as nat);
    lemma_split_whole(d, ':');
    let parts = split_on(s, ':');
    assert(parts == seq![a] + seq![d]);
    assert(parts.len() == 2 && parts[0] == a && parts[1] == d);
    lemma_addr_round_trip(t.address);
    lemma_dec_round_trip(t.decimals as nat);
    assert(spec_parse_token(s) == Some(TokenV { address: t.address, decimals: t.decimals }));
    assert(TokenV { address: t.address, decimals: t.decimals } == t);
}

/// Parsing the list text of well-formed tokens returns the list.
pub proof fn lemma_tokens_round_trip(ts: Seq<TokenV>)
    requires
        ts.len() >= 1,
        forall|i: int| 0 <= i < ts.len() ==> (#[trigger] ts[i]).address.len() == 20,
    ensures
        spec_parse_tokens(tokens_text(ts)) == Some(ts),
    decreases ts.len(),
{
    if ts.len() == 1 {
        lemma_token_text_free(ts[0]);
        lemma_split_whole(token_text(ts[0]), ',');
        lemma_token_round_trip(ts[0]);
        let parts = split_on(tokens_text(ts), ',');
        assert(parts == seq![token_text(ts[0])]);
        assert(parts.drop_first() =~= Seq::<Seq<char>>::empty());
        assert(parse_token_list(parts.drop_first()) == Some(Seq::<TokenV>::empty()));
        assert(seq![ts[0]] + Seq::<TokenV>::empty() =~= ts);
    } else {
        let h = token_text(ts[0]);
        let rest = tokens_text(ts.drop_first());
        lemma_token_text_free(ts[0]);
        lemma_split_sep(h, rest, ',');
        assert(tokens_text(ts) =~= h + seq![','] + rest);
        assert(forall|i: int|
            0 <= i < ts.drop_first().len() ==> (#[trigger] ts.drop_first()[i]) == ts[i + 1]);
        lemma_tokens_round_trip(ts.drop_first());
        lemma_token_round_trip(ts[0]);
        let parts = split_on(tokens_text(ts), ',');
        assert(parts == seq![h] + split_on(rest, ','));
        assert(parts[0] == h);
        assert(parts.drop_first() =~= split_on(rest, ','));
        assert(parse_token_list(parts) == Some(seq![ts[0]] + ts.drop_first()));
        assert(seq![ts[0]] + ts.drop_first() =~= ts);
    }
}

/// Parsing the extra text returns the extra value.
pub proof fn lemma_extra_round_trip(e: PoolExtra)
    ensures
        spec_parse_extra(extra_text(e)) == Some(e),
{
    reveal_strlit("none");
    reveal_strlit("uniswapv2");
    reveal_strlit("uniswapv3");
    assert(protocol_name(Protocol::UniSwapV2)[8] == '2');
    assert(protocol_name(Protocol::UniSwapV3)[8] == '3');
    match e {
        PoolExtra::NoExtra => {
        },
        PoolExtra::UniSwapV2 { fee } => {
            lemma_extra_fee_round_trip(Protocol::UniSwapV2, fee);
            assert(spec_parse_extra(extra_text(e)) == Some(PoolExtra::UniSwapV2 { fee }));
        },
        PoolExtra::UniSwapV3 { fee } => {
            lemma_extra_fee_round_trip(Protocol::UniSwapV3, fee);
            assert(spec_parse_extra(extra_text(e)) == Some(PoolExtra::UniSwapV3 { fee }));
        },
    }
}

proof fn lemma_extra_fee_round_trip(p: Protocol, fee: u64)
    ensures
        ({
            let s = protocol_name(p) + seq![':'] + dec_of(fee as nat);
            &&& s != none_text()
            &&& split_on(s, ':') == seq![protocol_name(p)] + seq![dec_of(fee as nat)]
            &&& parse_dec(dec_of(fee as nat)) == Some(fee as nat)
        }),
{
    reveal_strlit("none");
    lemma_protocol_name_free(p);
    lemma_dec_of_digits(fee as nat);
    let s = protocol_name(p) + seq![':'] + dec_of(fee as nat);
    assert(s.len() >= 11);
    assert(none_text().len() == 4);
    lemma_split_sep(protocol_name(p), dec_of(fee as nat), ':');
    lemma_dec_text_free(fee as nat);
    lemma_split_whole(dec_of(fee as nat), ':');
    lemma_dec_round_trip(fee as nat);
}

/// The shape a pool value must have for the text round trip: a 20-byte pool
/// address and at least two tokens with 20-byte addresses.
pub open spec fn wf_pool_v(p: PoolV) -> bool {
    &&& p.pool.len() == 20
    &&& p.tokens.len() >= 2
    &&& forall|i: int| 0 <= i < p.tokens.len() ==> (#[trigger] p.tokens[i]).address.len() == 20
}

/// A well-formed pool's value has the shape the round trip needs, so the
/// two laws compose: `from_text` applied to `to_text` of any well-formed
/// pool returns that pool.
pub proof fn lemma_wf_pool_view(p: &Pool)
    requires
        p.wf(),
    ensures
        wf_pool_v(p@),
{
    assert(forall|i: int|
        0 <= i < p.tokens@.len() ==> (#[trigger] p@.tokens[i]).address == p.tokens@[i]@.address);
}

/// Round-trip law: parsing the canonical text of any well-formed pool value
/// returns exactly that value — the same protocol, the same pool address,
/// and a byte-identical token list and extra field.
pub proof fn lemma_pool_round_trip(p: PoolV)
    requires
        wf_pool_v(p),
    ensures
        spec_parse_pool(pool_text(p)) == Ok::<PoolV, TextError>(p),
{
    let pn = protocol_name(p.protocol);
    let at = addr_text(p.pool);
    let tt = tokens_text(p.tokens);
    let et = extra_text(p.extra);
    let s = pool_text(p);
    let r2 = at + seq!['|'] + (tt + seq!['|'] + et);
    let r3 = tt + seq!['|'] + et;
    assert(s =~= pn + seq!['|'] + r2);
    lemma_protocol_name_free(p.protocol);
    lemma_split_sep(pn, r2, '|');
    lemma_addr_text_free(p.pool);
    assert(r2 =~= at + seq!['|'] + r3);
    lemma_split_sep(at, r3, '|');
    lemma_tokens_text_free(p.tokens);
    lemma_split_sep(tt, et, '|');
    lemma_extra_text_free(p.extra);
    lemma_split_whole(et, '|');
    let parts = split_on(s, '|');
    assert(parts == seq![pn] + (seq![at] + (seq![tt] + seq![et])));
    assert(parts.len() == 4);
    assert(parts[0] == pn && parts[1] == at && parts[2] == tt && parts[3] == et);
    lemma_protocol_round_trip(p.protocol);
    lemma_addr_round_trip(p.pool);
    lemma_tokens_round_trip(p.tokens);
    lemma_extra_round_trip(p.extra);
    assert(spec_parse_pool(s) == Ok::<PoolV, TextError>(
        PoolV { protocol: p.protocol, pool: p.pool, tokens: p.tokens, extra: p.extra },
    ));
    assert(PoolV { protocol: p.protocol, pool: p.pool, tokens: p.tokens, extra: p.extra } == p);
}

/// The views of a token vector.
pub open spec fn token_views(v: Seq<Token>) -> Seq<TokenV> {
    v.map_values(|t: Token| t@)
}

/// Appending one token to a nonempty list appends a comma and its text.
pub proof fn lemma_tokens_text_snoc(ts: Seq<TokenV>, t: TokenV)
    requires
        ts.len() >= 1,
    ensures
        tokens_text(ts.push(t)) == tokens_text(ts) + seq![','] + token_text(t),
    decreases ts.len(),
{
    if ts.len() == 1 {
        assert(ts.push(t).drop_first() =~= seq![t]);
        assert(tokens_text(seq![t]) == token_text(t));
        assert(ts.push(t)[0] == ts[0]);
        assert(tokens_text(ts.push(t)) =~= tokens_text(ts) + seq![','] + token_text(t));
    } else {
        assert(ts.push(t).drop_first() =~= ts.drop_first().push(t));
        lemma_tokens_text_snoc(ts.drop_first(), t);
        assert(ts.push(t)[0] == ts[0]);
        assert(tokens_text(ts.push(t)) =~= tokens_text(ts) + seq![','] + token_text(t));
    }
}

fn parse_protocol_chars(s: &Vec<char>) -> (r: Option<Protocol>)
    ensures
        r == spec_parse_protocol(s@),
{
    let v2 = str_to_chars("uniswapv2");
    if chars_eq(s, &v2) {
        return Some(Protocol::UniSwapV2);
    }
    let v3 = str_to_chars("uniswapv3");
    if chars_eq(s, &v3) {
        return Some(Protocol::UniSwapV3);
    }
    None
}

fn parse_address_chars(s: &Vec<char>) -> (r: Option<Address>)
    ensures
        match r {
            Some(a) => spec_parse_address(s@) == Some(a@) && a.wf(),
            None => spec_parse_address(s@) is None,
        },
{
    if s.len() != 42 {
        return None;
    }
    if s[0] != '0' || s[1] != 'x' {
        return None;
    }
    let body = copy_chars(s, 2, 42);
    proof {
        assert(body@ =~= s@.skip(2));
    }
    match hex_decode(&body) {
        Some(b) => {
            if b.len() == 20 {
                Some(Address::new(b))
            } else {
                None
            }
        },
        None => None,
    }
}

fn parse_token_chars(s: &Vec<char>) -> (r: Option<Token>)
    ensures
        match r {
            Some(t) => spec_parse_token(s@) == Some(t@) && t.wf(),
            None => spec_parse_token(s@) is None,
        },
{
    let parts = split_char(s, ':');
    proof {
        assert(views_of(parts@).len() == parts@.len());
    }
    if parts.len() != 2 {
        return None;
    }
    proof {
        assert(views_of(parts@)[0] == parts@[0]@ && views_of(parts@)[1] == parts@[1]@);
    }
    let a = match parse_address_chars(&parts[0]) {
        Some(a) => a,
        None => {
            return None;
        },
    };
    let d = match parse_dec_u64(&parts[1]) {
        Some(d) => d,
        None => {
            return None;
        },
    };
    if d > 255 {
        return None;
    }
    Some(Token { token_address: a, decimals: d as u8 })
}

fn parse_tokens_chars(s: &Vec<char>) -> (r: Option<Vec<Token>>)
    ensures
        match r {
            Some(v) => {
                &&& spec_parse_tokens(s@) == Some(token_views(v@))
                &&& forall|i: int| 0 <= i < v@.len() ==> (#[trigger] v@[i]).wf()
            },
            None => spec_parse_tokens(s@) is None,
        },
{
    let parts = split_char(s, ',');
    let ghost vs = views_of(parts@);
    let mut out: Vec<Token> = Vec::new();
    let mut i: usize = 0;
    proof {
        assert(vs.skip(0) =~= vs);
        let p = parse_token_list(vs);
        if p is Some {
            assert(token_views(out@) + p->0 =~= p->0);
            assert(token_views(out@) =~= Seq::<TokenV>::empty());
        }
    }
    while i < parts.len()
        invariant
            i <= parts@.len(),
            vs == views_of(parts@),
            vs == split_on(s@, ','),
            vs.len() == parts@.len(),
            forall|j: int| 0 <= j < out@.len() ==> (#[trigger] out@[j]).wf(),
            parse_token_list(vs) == (match parse_token_list(vs.skip(i as int)) {
                Some(rest) => Some(token_views(out@) + rest),
                None => None::<Seq<TokenV>>,
            }),
        decreases parts@.len() - i,
    {
        proof {
            assert(vs.skip(i as int).len() > 0);
            assert(vs.skip(i as int)[0] == vs[i as int]);
            assert(vs[i as int] == parts@[i as int]@);
            assert(vs.skip(i as int).drop_first() =~= vs.skip(i + 1));
        }
        let t = match parse_token_chars(&parts[i]) {
            Some(t) => t,
            None => {
                return None;
            },
        };
        proof {
            let p = parse_token_list(vs.skip(i + 1));
            if p is Some {
                let r2 = p->0;
                assert(token_views(out@.push(t)) =~= token_views(out@) + seq![t@]);
                assert(token_views(out@) + (seq![t@] + r2) =~= token_views(out@.push(t)) + r2);
            }
        }
        out.push(t);
        i = i + 1;
    }
    proof {
        assert(vs.skip(i as int).len() == 0);
        assert(parse_token_list(vs.skip(i as int)) == Some(Seq::<TokenV>::empty()));
        assert(token_views(out@) + Seq::<TokenV>::empty() =~= token_views(out@));
    }
    Some(out)
}

fn parse_extra_chars(s: &Vec<char>) -> (r: Option<PoolExtra>)
    ensures
        r == spec_parse_extra(s@),
{
    let none_c = str_to_chars("none");
    if chars_eq(s, &none_c) {
        return Some(PoolExtra::NoExtra);
    }
    let parts = split_char(s, ':');
    proof {
        assert(views_of(parts@).len() == parts@.len());
    }
    if parts.len() != 2 {
        return None;
    }
    proof {
        assert(views_of(parts@)[0] == parts@[0]@ && views_of(parts@)[1] == parts@[1]@);
    }
    let f = match parse_dec_u64(&parts[1]) {
        Some(f) => f,
        None => {
            return None;
        },
    };
    match parse_protocol_chars(&parts[0]) {
        Some(Protocol::UniSwapV2) => Some(PoolExtra::UniSwapV2 { fee: f }),
        Some(Protocol::UniSwapV3) => Some(PoolExtra::UniSwapV3 { fee: f }),
        None => None,
    }
}

impl Protocol {
    /// The canonical lowercase display name.
    pub fn display(&self) -> (r: String)
        ensures
            r@ == protocol_name(*self),
    {
        match self {
            Protocol::UniSwapV2 => String::from_str("uniswapv2"),
            Protocol::UniSwapV3 => String::from_str("uniswapv3"),
        }
    }

    /// Parses a display name back into its protocol; any other string is an
    /// unsupported protocol name.
    pub fn parse(value: &str) -> (r: Result<Protocol, DexError>)
        ensures
            match r {
                Ok(p) => spec_parse_protocol(value@) == Some(p),
                Err(e) => spec_parse_protocol(value@) is None && e is UnsupportedProtocolName,
            },
    {
        let cs = str_to_chars(value);
        match parse_protocol_chars(&cs) {
            Some(p) => Ok(p),
            None => Err(DexError::UnsupportedProtocolName),
        }
    }
}

impl Pool {
    /// The canonical text of this pool:
    /// `protocol_name|pool_address|tokens|extra`.
    pub fn to_text(&self) -> (r: String)
        ensures
            r@ == pool_text(self@),
    {
        let mut out: Vec<char> = Vec::new();
        let pn = match self.protocol {
            Protocol::UniSwapV2 => str_to_chars("uniswapv2"),
            Protocol::UniSwapV3 => str_to_chars("uniswapv3"),
        };
        push_chars(&mut out, &pn);
        out.push('|');
        out.push('0');
        out.push('x');
        let hex = hex_encode(&self.pool.bytes);
        push_chars(&mut out, &hex);
        out.push('|');
        proof {
            assert(out@ =~= protocol_name(self@.protocol) + seq!['|'] + addr_text(self@.pool)
                + seq!['|']);
        }
        let ghost tv = self@.tokens;
        let ghost prefix = out@;
        let mut i: usize = 0;
        proof {
            assert(tv.take(0) =~= Seq::<TokenV>::empty());
            assert(out@ =~= prefix + tokens_text(tv.take(0)));
        }
        while i < self.tokens.len()
            invariant
                i <= self.tokens@.len(),
                tv == self@.tokens,
                tv.len() == self.tokens@.len(),
                out@ == prefix + tokens_text(tv.take(i as int)),
            decreases self.tokens@.len() - i,
        {
            if i > 0 {
                out.push(',');
            }
            out.push('0');
            out.push('x');
            let hex = hex_encode(&self.tokens[i].token_address.bytes);
            push_chars(&mut out, &hex);
            out.push(':');
            let dch = format_u64(self.tokens[i].decimals as u64);
            push_chars(&mut out, &dch);
            proof {
                assert(tv[i as int] == self.tokens@[i as int]@);
                assert(token_text(tv[i as int]) =~= seq!['0', 'x'] + hex@ + seq![':'] + dch@);
                assert(tv.take(i + 1) =~= tv.take(i as int).push(tv[i as int]));
                if i == 0 {
                    assert(tokens_text(tv.take(1)) == token_text(tv[0]));
                    assert(out@ =~= prefix + tokens_text(tv.take(1)));
                } else {
                    lemma_tokens_text_snoc(tv.take(i as int), tv[i as int]);
                    assert(out@ =~= prefix + tokens_text(tv.take(i + 1)));
                }
            }
            i = i + 1;
        }
        proof {
            assert(tv.take(tv.len() as int) =~= tv);
        }
        out.push('|');
        match &self.extra {
            PoolExtra::NoExtra => {
                let nc = str_to_chars("none");
                push_chars(&mut out, &nc);
            },
            PoolExtra::UniSwapV2 { fee } => {
                let nc = str_to_chars("uniswapv2");
                push_chars(&mut out, &nc);
                out.push(':');
                let fch = format_u64(*fee);
                push_chars(&mut out, &fch);
            },
            PoolExtra::UniSwapV3 { fee } => {
                let nc = str_to_chars("uniswapv3");
                push_chars(&mut out, &nc);
                out.push(':');
                let fch = format_u64(*fee);
                push_chars(&mut out, &fch);
            },
        }
        proof {
            assert(out@ =~= pool_text(self@));
        }
        chars_to_string(&out)
    }

    /// Parses the canonical text back into a pool. A text without exactly
    /// four `|`-separated fields, or whose address, token list (at least two
    /// tokens) or extra field does not parse, is an invalid format; an
    /// unknown protocol name is reported as such.
    pub fn from_text(value: &str) -> (r: Result<Pool, DexError>)
        ensures
            match r {
                Ok(p) => spec_parse_pool(value@) == Ok::<PoolV, TextError>(p@) && p.wf(),
                Err(e) => match e {
                    DexError::InvalidFormat => spec_parse_pool(value@) == Err::<PoolV, TextError>(
                        TextError::BadFormat,
                    ),
                    DexError::UnsupportedProtocolName => spec_parse_pool(value@) == Err::<
                        PoolV,
                        TextError,
                    >(TextError::BadProtocolName),
                    _ => false,
                },
            },
    {
        let cs = str_to_chars(value);
        let parts = split_char(&cs, '|');
        proof {
            assert(views_of(parts@).len() == parts@.len());
        }
        if parts.len() != 4 {
            return Err(DexError::InvalidFormat);
        }
        proof {
            assert(views_of(parts@)[0] == parts@[0]@ && views_of(parts@)[1] == parts@[1]@
                && views_of(parts@)[2] == parts@[2]@ && views_of(parts@)[3] == parts@[3]@);
        }
        let protocol = match parse_protocol_chars(&parts[0]) {
            Some(p) => p,
            None => {
                return Err(DexError::UnsupportedProtocolName);
            },
        };
        let pool_addr = match parse_address_chars(&parts[1]) {
            Some(a) => a,
            None => {
                return Err(DexError::InvalidFormat);
            },
        };
        let tokens = match parse_tokens_chars(&parts[2]) {
            Some(v) => v,
            None => {
                return Err(DexError::InvalidFormat);
            },
        };
        if tokens.len() < 2 {
            return Err(DexError::InvalidFormat);
        }
        let extra = match parse_extra_chars(&parts[3]) {
            Some(e) => e,
            None => {
                return Err(DexError::InvalidFormat);
            },
        };
        let p = Pool { protocol, pool: pool_addr, tokens, extra };
        proof {
            let sp = spec_parse_tokens(views_of(parts@)[2]);
            assert(sp is Some);
            assert(p@.tokens =~= sp->0);
        }
        Ok(p)
    }
}

/// Why a pool text failed to parse.
pub enum TextError {
    /// Not four fields, or a field that does not parse.
    BadFormat,
    /// The protocol field names no known protocol.
    BadProtocolName,
}

/// Parsing the canonical pool text: split on `|` into exactly four fields,
/// then parse each field; the token list must hold at least two tokens.
pub open spec fn spec_parse_pool(s: Seq<char>) -> Result<PoolV, TextError> {
    let parts = split_on(s, '|');
    if parts.len() != 4 {
        Err(TextError::BadFormat)
    } else {
        match spec_parse_protocol(parts[0]) {
            None => Err(TextError::BadProtocolName),
            Some(protocol) => match spec_parse_address(parts[1]) {
                None => Err(TextError::BadFormat),
                Some(pool) => match spec_parse_tokens(parts[2]) {
                    None => Err(TextError::BadFormat),
                    Some(tokens) => if tokens.len() >= 2 {
                        match spec_parse_extra(parts[3]) {
                            None => Err(TextError::BadFormat),
                            Some(extra) => Ok(PoolV { protocol, pool, tokens, extra }),
                        }
                    } else {
                        Err(TextError::BadFormat)
                    },
                },
            },
        }
    }
}

} // verus!
