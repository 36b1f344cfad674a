//! Text as sequences of characters: the operations on strings that the
//! rest of the library is stated over.

use vstd::prelude::*;
use vstd::relations::*;
use vstd::seq_lib::*;
use vstd::string::*;
use vstd::utf8::*;

verus! {

/// `p` occurs in `s` starting at position `i`.
pub open spec fn occurs_at(s: Seq<char>, p: Seq<char>, i: int) -> bool {
    &&& 0 <= i
    &&& i + p.len() <= s.len()
    &&& s.subrange(i, i + p.len()) == p
}

/// `p` occurs somewhere in `s` as a contiguous run of characters.
pub open spec fn contains_seq(s: Seq<char>, p: Seq<char>) -> bool {
    exists|i: int| occurs_at(s, p, i)
}

/// `s` begins with `p`.
pub open spec fn starts_with_seq(s: Seq<char>, p: Seq<char>) -> bool {
    occurs_at(s, p, 0)
}

/// Appends one character to a string: `String::push`, which adds `c` at the
/// end and leaves what was there untouched.
#[verifier::external_body]
pub(crate) fn push_char(s: &mut String, c: char)
    ensures
        final(s)@ == old(s)@.push(c),
{
    s.push(c)
}

/// The characters of `s`, in order.
pub fn to_chars(s: &str) -> (v: Vec<char>)
    ensures
        v@ == s@,
{
    let mut v: Vec<char> = Vec::new();
    for c in it: s.chars()
        invariant
            v@ == it.seq().take(it.index() as int),
            it.seq() == s@,
    {
        v.push(c);
    }
    v
}

/// The string made of the characters `v[from..to]`.
pub fn from_chars(v: &[char], from: usize, to: usize) -> (s: String)
    requires
        from <= to <= v.len(),
    ensures
        s@ == v@.subrange(from as int, to as int),
{
    let mut s = String::new();
    let mut i: usize = from;
    while i < to
        invariant
            from <= i <= to <= v.len(),
            s@ == v@.subrange(from as int, i as int),
        decreases to - i,
    {
        push_char(&mut s, v[i]);
        i += 1;
    }
    s
}

/// Whether `p` occurs in `s` at position `i`.
pub fn matches_at(s: &[char], p: &[char], i: usize) -> (r: bool)
    ensures
        r == occurs_at(s@, p@, i as int),
{
    if i > s.len() || p.len() > s.len() - i {
        return false;
    }
    let mut k: usize = 0;
    while k < p.len()
        invariant
            k <= p.len(),
            i + p.len() <= s.len(),
            forall|j: int| 0 <= j < k ==> s@[i + j] == p@[j],
        decreases p.len() - k,
    {
        if s[i + k] != p[k] {
            assert(s@.subrange(i as int, i + p.len())[k as int] == s@[i + k]);
            return false;
        }
        k += 1;
    }
    assert(s@.subrange(i as int, i + p.len()) =~= p@);
    true
}

/// The first position at or after `from` where `p` occurs in `s`.
pub fn find_from(s: &[char], p: &[char], from: usize) -> (r: Option<usize>)
    ensures
        match r {
            Some(i) => from <= i && occurs_at(s@, p@, i as int) && forall|j: int|
                from <= j < i ==> !occurs_at(s@, p@, j),
            None => forall|j: int| from <= j ==> !occurs_at(s@, p@, j),
        },
{
    if from > s.len() || p.len() > s.len() - from {
        return None;
    }
    let last: usize = s.len() - p.len();
    let mut i: usize = from;
    while i < last
        invariant
            from <= i <= last,
            last == s.len() - p.len(),
            forall|j: int| from <= j < i ==> !occurs_at(s@, p@, j),
        decreases last - i,
    {
        if matches_at(s, p, i) {
            return Some(i);
        }
        i += 1;
    }
    if matches_at(s, p, last) {
        Some(last)
    } else {
        None
    }
}

/// Whether `p` occurs in `s`.
pub fn contains_chars(s: &[char], p: &[char]) -> (r: bool)
    ensures
        r == contains_seq(s@, p@),
{
    find_from(s, p, 0).is_some()
}

/// Whether the string `s` contains the string `p`.
pub fn str_contains(s: &str, p: &str) -> (r: bool)
    ensures
        r == contains_seq(s@, p@),
{
    let sv = to_chars(s);
    let pv = to_chars(p);
    contains_chars(sv.as_slice(), pv.as_slice())
}

/// Whether the string `s` begins with the string `p`.
pub fn str_starts_with(s: &str, p: &str) -> (r: bool)
    ensures
        r == starts_with_seq(s@, p@),
{
    let sv = to_chars(s);
    let pv = to_chars(p);
    matches_at(sv.as_slice(), pv.as_slice(), 0)
}

/// Lexicographic order on byte strings: the first byte that differs
/// decides, and a proper prefix comes first.
pub open spec fn lex_lt(a: Seq<u8>, b: Seq<u8>) -> bool
    decreases a.len(),
{
    if b.len() == 0 {
        false
    } else if a.len() == 0 {
        true
    } else if a[0] != b[0] {
        a[0] < b[0]
    } else {
        lex_lt(a.drop_first(), b.drop_first())
    }
}

/// The order of strings: that of their UTF-8 encodings, byte by byte.
pub open spec fn str_lt(a: Seq<char>, b: Seq<char>) -> bool {
    lex_lt(encode_utf8(a), encode_utf8(b))
}

/// Every pair of different positions is in strictly increasing order.
pub open spec fn strictly_sorted(keys: Seq<Seq<char>>) -> bool {
    forall|i: int, j: int| 0 <= i < j < keys.len() ==> str_lt(#[trigger] keys[i], #[trigger] keys[j])
}

pub proof fn lemma_lex_irreflexive(a: Seq<u8>)
    ensures
        !lex_lt(a, a),
    decreases a.len(),
{
    if a.len() > 0 {
        lemma_lex_irreflexive(a.drop_first());
    }
}

pub proof fn lemma_lex_transitive(a: Seq<u8>, b: Seq<u8>, c: Seq<u8>)
    requires
        lex_lt(a, b),
        lex_lt(b, c),
    ensures
        lex_lt(a, c),
    decreases a.len(),
{
    if a.len() > 0 && b.len() > 0 && c.len() > 0 && a[0] == b[0] && b[0] == c[0] {
        lemma_lex_transitive(a.drop_first(), b.drop_first(), c.drop_first());
    }
}

pub proof fn lemma_lex_total(a: Seq<u8>, b: Seq<u8>)
    requires
        !lex_lt(a, b),
        !lex_lt(b, a),
    ensures
        a == b,
    decreases a.len(),
{
    if a.len() > 0 && b.len() > 0 {
        lemma_lex_total(a.drop_first(), b.drop_first());
        assert(a =~= seq![a[0]] + a.drop_first());
        assert(b =~= seq![b[0]] + b.drop_first());
    } else {
        assert(a =~= b);
    }
}

/// Two strings with the same encoding are the same string.
pub proof fn lemma_encoding_injective(a: Seq<char>, b: Seq<char>)
    requires
        encode_utf8(a) == encode_utf8(b),
    ensures
        a == b,
{
    encode_utf8_decode_utf8(a);
    encode_utf8_decode_utf8(b);
}

/// `str_lt` is a strict total order on strings.
pub proof fn lemma_str_order(a: Seq<char>, b: Seq<char>, c: Seq<char>)
    ensures
        !str_lt(a, a),
        str_lt(a, b) && str_lt(b, c) ==> str_lt(a, c),
        str_lt(a, b) || a == b || str_lt(b, a),
        !(str_lt(a, b) && str_lt(b, a)),
{
    lemma_lex_irreflexive(encode_utf8(a));
    if str_lt(a, b) && str_lt(b, c) {
        lemma_lex_transitive(encode_utf8(a), encode_utf8(b), encode_utf8(c));
    }
    if !str_lt(a, b) && !str_lt(b, a) {
        lemma_lex_total(encode_utf8(a), encode_utf8(b));
        lemma_encoding_injective(a, b);
    }
    if str_lt(a, b) && str_lt(b, a) {
        lemma_lex_transitive(encode_utf8(a), encode_utf8(b), encode_utf8(a));
    }
}

/// Where one string stands relative to another.
#[derive(Clone, Copy, Debug, PartialEq, Eq, Structural)]
pub enum Precedence {
    /// It comes first.
    Before,
    /// They are the same string.
    Same,
    /// It comes last.
    After,
}

/// Compares two strings in the order `str_lt`.
pub fn str_order(a: &str, b: &str) -> (r: Precedence)
    ensures
        r == Precedence::Before <==> str_lt(a@, b@),
        r == Precedence::Same <==> a@ == b@,
        r == Precedence::After <==> str_lt(b@, a@),
{
    let x = a.as_bytes();
    let y = b.as_bytes();
    proof {
        lemma_str_order(a@, b@, a@);
        assert(x@.skip(0) =~= x@);
        assert(y@.skip(0) =~= y@);
    }
    let mut i: usize = 0;
    while i < x.len() && i < y.len()
        invariant
            i <= x.len(),
            i <= y.len(),
            x@ == encode_utf8(a@),
            y@ == encode_utf8(b@),
            lex_lt(x@, y@) == lex_lt(x@.skip(i as int), y@.skip(i as int)),
            lex_lt(y@, x@) == lex_lt(y@.skip(i as int), x@.skip(i as int)),
        decreases x.len() - i,
    {
        if x[i] < y[i] {
            return Precedence::Before;
        }
        if x[i] > y[i] {
            return Precedence::After;
        }
        assert(x@.skip(i as int).drop_first() =~= x@.skip(i + 1));
        assert(y@.skip(i as int).drop_first() =~= y@.skip(i + 1));
        i += 1;
    }
    if i < y.len() {
        Precedence::Before
    } else if i < x.len() {
        Precedence::After
    } else {
        proof {
            lemma_str_order(a@, b@, a@);
            lemma_lex_irreflexive(x@.skip(i as int));
            assert(x@.skip(i as int) =~= y@.skip(i as int));
        }
        Precedence::Same
    }
}

/// The character that writes the digit `d`.
pub open spec fn digit_char(d: int) -> char {
    if d == 0 {
        '0'
    } else if d == 1 {
        '1'
    } else if d == 2 {
        '2'
    } else if d == 3 {
        '3'
    } else if d == 4 {
        '4'
    } else if d == 5 {
        '5'
    } else if d == 6 {
        '6'
    } else if d == 7 {
        '7'
    } else if d == 8 {
        '8'
    } else {
        '9'
    }
}

/// A natural number written in base ten, without leading zeros.
pub open spec fn decimal(n: nat) -> Seq<char>
    decreases n,
{
    if n < 10 {
        seq![digit_char(n as int)]
    } else {
        decimal(n / 10).push(digit_char((n % 10) as int))
    }
}

/// An integer written in base ten, with a minus sign if it is negative.
pub open spec fn signed_decimal(n: int) -> Seq<char> {
    if n < 0 {
        seq!['-'] + decimal((-n) as nat)
    } else {
        decimal(n as nat)
    }
}

fn digit_of(d: u8) -> (c: char)
    requires
        d < 10,
    ensures
        c == digit_char(d as int),
{
    if d == 0 {
        '0'
    } else if d == 1 {
        '1'
    } else if d == 2 {
        '2'
    } else if d == 3 {
        '3'
    } else if d == 4 {
        '4'
    } else if d == 5 {
        '5'
    } else if d == 6 {
        '6'
    } else if d == 7 {
        '7'
    } else if d == 8 {
        '8'
    } else {
        '9'
    }
}

/// Appends `n`, written in base ten, to `out`.
pub fn push_decimal(out: &mut String, n: u128)
    ensures
        final(out)@ == old(out)@ + decimal(n as nat),
    decreases n,
{
    if n >= 10 {
        push_decimal(out, n / 10);
    }
    push_char(out, digit_of((n % 10) as u8));
    proof {
        if n >= 10 {
            assert(old(out)@ + decimal(n as nat) =~= (old(out)@ + decimal((n / 10) as nat)).push(
                digit_char((n % 10) as int),
            ));
        } else {
            assert(old(out)@ + decimal(n as nat) =~= old(out)@.push(digit_char(n as int)));
        }
    }
}

/// Appends `n`, written in base ten with its sign, to `out`.
pub fn push_signed_decimal(out: &mut String, n: i128)
    ensures
        final(out)@ == old(out)@ + signed_decimal(n as int),
{
    if n < 0 {
        push_char(out, '-');
        let m: u128 = ((-(n + 1)) as u128) + 1;
        push_decimal(out, m);
        assert(final(out)@ =~= old(out)@ + signed_decimal(n as int));
    } else {
        push_decimal(out, n as u128);
    }
}

/// `n` written in base ten.
pub fn decimal_string(n: u128) -> (s: String)
    ensures
        s@ == decimal(n as nat),
{
    let mut s = String::new();
    push_decimal(&mut s, n);
    assert(s@ =~= decimal(n as nat));
    s
}

/// A string with the characters of `a` followed by those of `b`.
pub fn join2(a: &str, b: &str) -> (s: String)
    ensures
        s@ == a@ + b@,
{
    let mut s = String::from_str(a);
    s.append(b);
    s
}

/// A string with the characters of `a`, `b` and `c`, in that order.
pub fn join3(a: &str, b: &str, c: &str) -> (s: String)
    ensures
        s@ == a@ + b@ + c@,
{
    let mut s = String::from_str(a);
    s.append(b);
    s.append(c);
    s
}

/// Whether two strings are the same.
pub fn str_eq(a: &str, b: &str) -> (r: bool)
    ensures
        r == (a@ == b@),
{
    str_order(a, b) == Precedence::Same
}

/// The lowercase equivalent of a string, as Unicode defines it.
pub uninterp spec fn lowercase(s: Seq<char>) -> Seq<char>;

/// The lowercase equivalent of `s`: `str::to_lowercase`, whose result
/// depends on the characters of `s` alone.
#[verifier::external_body]
pub(crate) fn to_lowercase(s: &str) -> (r: String)
    ensures
        r@ == lowercase(s@),
{
    s.to_lowercase()
}

/// The texts of a list of strings.
pub open spec fn strings_view(v: Seq<String>) -> Seq<Seq<char>> {
    Seq::new(v.len(), |i: int| v[i]@)
}

/// `a` is `b` or comes before it.
pub open spec fn str_le(a: Seq<char>, b: Seq<char>) -> bool {
    a == b || str_lt(a, b)
}

/// The order of strings, as a relation.
pub open spec fn text_order() -> spec_fn(Seq<char>, Seq<char>) -> bool {
    |a: Seq<char>, b: Seq<char>| str_le(a, b)
}

/// The strings of `s` in ascending order, each as often as it stands in
/// `s`.
pub open spec fn sorted_texts(s: Seq<Seq<char>>) -> Seq<Seq<char>> {
    s.sort_by(text_order())
}

/// The order of strings is a total order.
pub proof fn lemma_text_order_total()
    ensures
        total_ordering(text_order()),
{
    let r = text_order();
    assert forall|a: Seq<char>, b: Seq<char>, c: Seq<char>|
        #![trigger r(a, b), r(b, c)]
        r(a, a) && (r(a, b) && r(b, a) ==> a == b) && (r(a, b) && r(b, c) ==> r(a, c)) && (r(a, b)
            || r(b, a)) by {
        lemma_str_order(a, b, c);
        lemma_str_order(b, a, c);
    }
    assert(reflexive(r)) by {
        assert forall|a: Seq<char>| #[trigger] r(a, a) by {
            assert(r(a, a) && r(a, a));
        }
    }
    assert(antisymmetric(r)) by {
        assert forall|a: Seq<char>, b: Seq<char>| #[trigger] r(a, b) && #[trigger] r(b, a) implies a
            == b by {
            lemma_str_order(a, b, a);
        }
    }
    assert(transitive(r)) by {
        assert forall|a: Seq<char>, b: Seq<char>, c: Seq<char>| #[trigger]
            r(a, b) && #[trigger] r(b, c) implies r(a, c) by {
            lemma_str_order(a, b, c);
        }
    }
    assert(strongly_connected(r)) by {
        assert forall|a: Seq<char>, b: Seq<char>| #[trigger] r(a, b) || #[trigger] r(b, a) by {
            lemma_str_order(a, b, a);
        }
    }
}

/// Two lists that hold the same strings equally often have the same
/// sorted list.
pub proof fn lemma_sorted_texts_of_rearrangement(a: Seq<Seq<char>>, b: Seq<Seq<char>>)
    requires
        a.to_multiset() == b.to_multiset(),
    ensures
        sorted_texts(a) == sorted_texts(b),
{
    lemma_text_order_total();
    a.lemma_sort_by_ensures(text_order());
    b.lemma_sort_by_ensures(text_order());
    lemma_sorted_unique(sorted_texts(a), sorted_texts(b), text_order());
}

/// A copy of `items` in ascending order.
pub fn sorted_copy(items: &[String]) -> (out: Vec<String>)
    ensures
        strings_view(out@) == sorted_texts(strings_view(items@)),
{
    let ghost input = strings_view(items@);
    let mut out: Vec<String> = Vec::new();
    let mut i: usize = 0;
    proof {
        assert(strings_view(out@) =~= input.take(0));
    }
    while i < items.len()
        invariant
            i <= items.len(),
            input == strings_view(items@),
            sorted_by(strings_view(out@), text_order()),
            strings_view(out@).to_multiset() == input.take(i as int).to_multiset(),
        decreases items.len() - i,
    {
        let x = items[i].clone();
        let ghost before = strings_view(out@);
        let mut j: usize = 0;
        while j < out.len() && str_order(out[j].as_str(), x.as_str()) != Precedence::After
            invariant
                j <= out.len(),
                before == strings_view(out@),
                forall|k: int| 0 <= k < j ==> str_le(#[trigger] before[k], x@),
            decreases out.len() - j,
        {
            proof {
                lemma_str_order(before[j as int], x@, x@);
            }
            j += 1;
        }
        out.insert(j, x);
        proof {
            let after = strings_view(out@);
            assert(after =~= before.insert(j as int, x@));
            to_multiset_insert(before, j as int, x@);
            assert(input.take(i + 1) =~= input.take(i as int).push(x@));
            to_multiset_build(input.take(i as int), x@);
            assert forall|a: int, b: int| 0 <= a < b < after.len() implies text_order()(
                #[trigger] after[a],
                #[trigger] after[b],
            ) by {
                let oa = if a < j { a } else { a - 1 };
                let ob = if b < j { b } else { b - 1 };
                if a != j && b != j {
                    assert(text_order()(before[oa], before[ob]));
                } else if a == j {
                    assert(str_lt(x@, before[j as int]));
                    if ob > j {
                        assert(text_order()(before[j as int], before[ob]));
                    }
                    lemma_str_order(x@, before[j as int], before[ob]);
                }
            }
        }
        i += 1;
    }
    proof {
        assert(input.take(i as int) =~= input);
        lemma_text_order_total();
        input.lemma_sort_by_ensures(text_order());
        lemma_sorted_unique(strings_view(out@), sorted_texts(input), text_order());
    }
    out
}

/// The character that writes the hexadecimal digit `d`, in lower case.
pub open spec fn hex_digit(d: int) -> char {
    if d < 10 {
        digit_char(d)
    } else if d == 10 {
        'a'
    } else if d == 11 {
        'b'
    } else if d == 12 {
        'c'
    } else if d == 13 {
        'd'
    } else if d == 14 {
        'e'
    } else {
        'f'
    }
}

/// The digit of `n` that stands at position `i` of its sixteen
/// hexadecimal digits, counted from the most significant.
pub open spec fn nibble(n: u64, i: int) -> int {
    ((n as int) / pow16(15 - i)) % 16
}

/// Sixteen to the power `k`.
pub open spec fn pow16(k: int) -> int
    decreases k,
{
    if k <= 0 {
        1
    } else {
        16 * pow16(k - 1)
    }
}

/// A 64-bit number as sixteen hexadecimal digits in lower case, padded
/// with zeros.
pub open spec fn hex16(n: u64) -> Seq<char> {
    Seq::new(16, |i: int| hex_digit(nibble(n, i)))
}

fn hex_of(d: u8) -> (c: char)
    requires
        d < 16,
    ensures
        c == hex_digit(d as int),
{
    if d < 10 {
        digit_of(d)
    } else if d == 10 {
        'a'
    } else if d == 11 {
        'b'
    } else if d == 12 {
        'c'
    } else if d == 13 {
        'd'
    } else if d == 14 {
        'e'
    } else {
        'f'
    }
}

/// `n` as sixteen hexadecimal digits in lower case, padded with zeros.
pub fn hex16_string(n: u64) -> (s: String)
    ensures
        s@ == hex16(n),
{
    let mut digits: Vec<char> = Vec::new();
    let mut rest: u64 = n;
    let mut k: usize = 0;
    // The digits come out least significant first.
    while k < 16
        invariant
            k <= 16,
            digits.len() == k,
            rest as int == (n as int) / pow16(k as int),
            forall|j: int| 0 <= j < k ==> digits@[j] == hex_digit(nibble(n, 15 - j)),
        decreases 16 - k,
    {
        proof {
            let p = pow16(k as int);
            lemma_pow16_positive(k as int);
            assert(((n as int) / p) / 16 == (n as int) / (p * 16)) by (nonlinear_arith)
                requires
                    p > 0,
            ;
            assert(pow16(k + 1) == 16 * p);
        }
        digits.push(hex_of((rest % 16) as u8));
        rest = rest / 16;
        k += 1;
    }
    let mut s = String::new();
    let mut i: usize = 0;
    while i < 16
        invariant
            i <= 16,
            digits.len() == 16,
            s@.len() == i,
            forall|j: int| 0 <= j < 16 ==> digits@[j] == hex_digit(nibble(n, 15 - j)),
            forall|j: int| 0 <= j < i ==> s@[j] == hex_digit(nibble(n, j)),
        decreases 16 - i,
    {
        push_char(&mut s, digits[15 - i]);
        i += 1;
    }
    assert(s@ =~= hex16(n));
    s
}

proof fn lemma_pow16_positive(k: int)
    ensures
        pow16(k) > 0,
    decreases k,
{
    if k > 0 {
        lemma_pow16_positive(k - 1);
    }
}

/// The first `n` of `items` written one after another with `sep` between
/// them.
pub open spec fn join_texts(items: Seq<Seq<char>>, sep: Seq<char>, n: nat) -> Seq<char>
    decreases n,
{
    if n == 0 || n > items.len() {
        Seq::<char>::empty()
    } else if n == 1 {
        items[0]
    } else {
        join_texts(items, sep, (n - 1) as nat) + sep + items[n - 1]
    }
}

/// The strings of `items` written one after another with `sep` between
/// them.
pub fn join_strings(items: &[String], sep: &str) -> (s: String)
    ensures
        s@ == join_texts(strings_view(items@), sep@, items.len() as nat),
{
    let mut s = String::new();
    let mut i: usize = 0;
    while i < items.len()
        invariant
            i <= items.len(),
            s@ == join_texts(strings_view(items@), sep@, i as nat),
        decreases items.len() - i,
    {
        if i > 0 {
            s.append(sep);
        }
        s.append(items[i].as_str());
        proof {
            assert(strings_view(items@)[i as int] == items@[i as int]@);
            if i == 0 {
                assert(s@ =~= items@[0]@);
            }
        }
        i += 1;
    }
    s
}

/// The position of the first line feed in `s`, or the length of `s` if
/// there is none.
pub open spec fn first_newline(s: Seq<char>) -> int
    decreases s.len(),
{
    if s.len() == 0 || s[0] == '\n' {
        0
    } else {
        1 + first_newline(s.drop_first())
    }
}

/// A line without the carriage return at its end, if it has one.
pub open spec fn strip_cr(line: Seq<char>) -> Seq<char> {
    if line.len() > 0 && line.last() == '\r' {
        line.drop_last()
    } else {
        line
    }
}

/// The lines of a text. A line ends at a line feed, or at a carriage
/// return followed by a line feed; the ending is not part of the line.
/// What follows the last line feed is a line unless it is empty.
pub open spec fn lines_of(s: Seq<char>) -> Seq<Seq<char>>
    decreases s.len(),
{
    if s.len() == 0 {
        Seq::<Seq<char>>::empty()
    } else {
        let i = first_newline(s);
        proof {
            lemma_first_newline(s);
        }
        if i >= s.len() {
            seq![s]
        } else {
            seq![strip_cr(s.subrange(0, i))] + lines_of(s.subrange(i + 1, s.len() as int))
        }
    }
}

/// `first_newline` points at a line feed, or past the end, and no line
/// feed stands before it.
pub proof fn lemma_first_newline(s: Seq<char>)
    ensures
        0 <= first_newline(s) <= s.len(),
        first_newline(s) < s.len() ==> s[first_newline(s)] == '\n',
        forall|k: int| 0 <= k < first_newline(s) ==> s[k] != '\n',
    decreases s.len(),
{
    if s.len() == 0 || s[0] == '\n' {
    } else {
        lemma_first_newline(s.drop_first());
        assert forall|k: int| 0 <= k < first_newline(s) implies s[k] != '\n' by {
            if k > 0 {
                assert(s.drop_first()[k - 1] == s[k]);
            }
        }
    }
}

/// The first position where a line feed stands is `first_newline`.
pub proof fn lemma_first_newline_is(s: Seq<char>, i: int)
    requires
        0 <= i <= s.len(),
        forall|k: int| 0 <= k < i ==> s[k] != '\n',
        i < s.len() ==> s[i] == '\n',
    ensures
        first_newline(s) == i,
    decreases s.len(),
{
    if s.len() == 0 || s[0] == '\n' {
    } else {
        assert forall|k: int| 0 <= k < i - 1 implies s.drop_first()[k] != '\n' by {
            assert(s.drop_first()[k] == s[k + 1]);
        }
        lemma_first_newline_is(s.drop_first(), i - 1);
    }
}

/// The views of a list of lists of characters.
pub open spec fn chars_views(v: Seq<Vec<char>>) -> Seq<Seq<char>> {
    Seq::new(v.len(), |i: int| v[i]@)
}

/// A copy of the characters `s[from..to]`.
pub fn copy_range(s: &[char], from: usize, to: usize) -> (v: Vec<char>)
    requires
        from <= to <= s.len(),
    ensures
        v@ == s@.subrange(from as int, to as int),
{
    let mut v: Vec<char> = Vec::new();
    let mut i: usize = from;
    while i < to
        invariant
            from <= i <= to <= s.len(),
            v@ == s@.subrange(from as int, i as int),
        decreases to - i,
    {
        v.push(s[i]);
        i += 1;
    }
    v
}

/// The lines of a text.
pub fn split_lines(s: &[char]) -> (lines: Vec<Vec<char>>)
    ensures
        chars_views(lines@) == lines_of(s@),
{
    let mut lines: Vec<Vec<char>> = Vec::new();
    let mut pos: usize = 0;
    proof {
        assert(s@.skip(0) =~= s@);
        assert(chars_views(lines@) =~= Seq::<Seq<char>>::empty());
    }
    while pos < s.len()
        invariant
            pos <= s.len(),
            lines_of(s@) == chars_views(lines@) + lines_of(s@.skip(pos as int)),
        decreases s.len() - pos,
    {
        let mut end: usize = pos;
        while end < s.len() && s[end] != '\n'
            invariant
                pos <= end <= s.len(),
                forall|k: int| pos <= k < end ==> s@[k] != '\n',
            decreases s.len() - end,
        {
            end += 1;
        }
        let ghost rest = s@.skip(pos as int);
        proof {
            lemma_first_newline_is(rest, end - pos);
            assert(rest.subrange(0, end - pos) =~= s@.subrange(pos as int, end as int));
        }
        if end == s.len() {
            let line = copy_range(s, pos, end);
            proof {
                assert(line@ =~= rest);
                assert(chars_views(lines@.push(line)) =~= chars_views(lines@) + seq![rest]);
                assert(s@.skip(s.len() as int) =~= Seq::<char>::empty());
                assert(lines_of(s@.skip(s.len() as int)) =~= Seq::<Seq<char>>::empty());
            }
            lines.push(line);
            pos = end;
        } else {
            let stop: usize = if end > pos && s[end - 1] == '\r' {
                end - 1
            } else {
                end
            };
            let line = copy_range(s, pos, stop);
            proof {
                let whole = s@.subrange(pos as int, end as int);
                assert(line@ =~= strip_cr(whole));
                assert(rest.subrange(end - pos + 1, rest.len() as int) =~= s@.skip(end + 1));
                assert(chars_views(lines@.push(line)) =~= chars_views(lines@) + seq![line@]);
                assert(chars_views(lines@) + (seq![line@] + lines_of(s@.skip(end + 1)))
                    =~= chars_views(lines@) + seq![line@] + lines_of(s@.skip(end + 1)));
            }
            lines.push(line);
            pos = end + 1;
        }
    }
    proof {
        assert(s@.skip(pos as int) =~= Seq::<char>::empty());
        assert(chars_views(lines@) + Seq::<Seq<char>>::empty() =~= chars_views(lines@));
    }
    lines
}

/// Whether a character is white space, as Unicode defines it: the
/// characters with the property `White_Space`. They are the tab, the line
/// feed, the vertical tab, the form feed, the carriage return, the space,
/// the next-line character, the no-break space, the ogham space mark, the
/// spaces from en quad to hair space, the line and paragraph separators,
/// the narrow no-break space, the medium mathematical space and the
/// ideographic space.
pub open spec fn is_whitespace(c: char) -> bool {
    let n = c as u32;
    ||| 0x09 <= n <= 0x0d
    ||| n == 0x20
    ||| n == 0x85
    ||| n == 0xa0
    ||| n == 0x1680
    ||| 0x2000 <= n <= 0x200a
    ||| n == 0x2028
    ||| n == 0x2029
    ||| n == 0x202f
    ||| n == 0x205f
    ||| n == 0x3000
}

/// Whether `c` is white space.
pub fn char_is_whitespace(c: char) -> (r: bool)
    ensures
        r == is_whitespace(c),
{
    let n = c as u32;
    (0x09 <= n && n <= 0x0d) || n == 0x20 || n == 0x85 || n == 0xa0 || n == 0x1680 || (0x2000 <= n
        && n <= 0x200a) || n == 0x2028 || n == 0x2029 || n == 0x202f || n == 0x205f || n == 0x3000
}

/// The uppercase equivalent of a string, as Unicode defines it.
pub uninterp spec fn uppercase(s: Seq<char>) -> Seq<char>;

/// The uppercase equivalent of `s`: `str::to_uppercase`, whose result
/// depends on the characters of `s` alone.
#[verifier::external_body]
pub(crate) fn to_uppercase(s: &str) -> (r: String)
    ensures
        r@ == uppercase(s@),
{
    s.to_uppercase()
}

/// The number of characters at the start of `s` that are white space.
pub open spec fn leading_space(s: Seq<char>) -> nat
    decreases s.len(),
{
    if s.len() > 0 && is_whitespace(s[0]) {
        1 + leading_space(s.drop_first())
    } else {
        0
    }
}

/// The number of characters at the end of `s` that are white space.
pub open spec fn trailing_space(s: Seq<char>) -> nat
    decreases s.len(),
{
    if s.len() > 0 && is_whitespace(s.last()) {
        1 + trailing_space(s.drop_last())
    } else {
        0
    }
}

/// `s` without the white space at its start.
pub open spec fn trim_start_of(s: Seq<char>) -> Seq<char> {
    s.skip(leading_space(s) as int)
}

/// `s` without the white space at its start and at its end.
pub open spec fn trim_of(s: Seq<char>) -> Seq<char> {
    let rest = trim_start_of(s);
    rest.take(rest.len() - trailing_space(rest))
}

/// The number of characters at the start of `s` that are `c`.
pub open spec fn leading_run(s: Seq<char>, c: char) -> nat
    decreases s.len(),
{
    if s.len() > 0 && s[0] == c {
        1 + leading_run(s.drop_first(), c)
    } else {
        0
    }
}

/// The number of characters at the end of `s` that are `c`.
pub open spec fn trailing_run(s: Seq<char>, c: char) -> nat
    decreases s.len(),
{
    if s.len() > 0 && s.last() == c {
        1 + trailing_run(s.drop_last(), c)
    } else {
        0
    }
}

/// `s` without the characters `c` at its start and at its end.
pub open spec fn trim_matches_of(s: Seq<char>, c: char) -> Seq<char> {
    let rest = s.skip(leading_run(s, c) as int);
    rest.take(rest.len() - trailing_run(rest, c))
}

/// The position of the first `c` in `s`, or the length of `s` if there
/// is none.
pub open spec fn first_of(s: Seq<char>, c: char) -> int
    decreases s.len(),
{
    if s.len() == 0 || s[0] == c {
        0
    } else {
        1 + first_of(s.drop_first(), c)
    }
}

/// The pieces of `s` between the characters `c`: one more than there are
/// such characters.
pub open spec fn split_on(s: Seq<char>, c: char) -> Seq<Seq<char>>
    decreases s.len(),
{
    let i = first_of(s, c);
    proof {
        lemma_first_of(s, c);
    }
    if i >= s.len() {
        seq![s]
    } else {
        seq![s.subrange(0, i)] + split_on(s.subrange(i + 1, s.len() as int), c)
    }
}

/// `first_of` points at a `c`, or past the end, and no `c` stands before
/// it.
pub proof fn lemma_first_of(s: Seq<char>, c: char)
    ensures
        0 <= first_of(s, c) <= s.len(),
        first_of(s, c) < s.len() ==> s[first_of(s, c)] == c,
        forall|k: int| 0 <= k < first_of(s, c) ==> s[k] != c,
    decreases s.len(),
{
    if s.len() == 0 || s[0] == c {
    } else {
        lemma_first_of(s.drop_first(), c);
        assert forall|k: int| 0 <= k < first_of(s, c) implies s[k] != c by {
            if k > 0 {
                assert(s.drop_first()[k - 1] == s[k]);
            }
        }
    }
}

/// The first position where a `c` stands is `first_of`.
pub proof fn lemma_first_of_is(s: Seq<char>, c: char, i: int)
    requires
        0 <= i <= s.len(),
        forall|k: int| 0 <= k < i ==> s[k] != c,
        i < s.len() ==> s[i] == c,
    ensures
        first_of(s, c) == i,
    decreases s.len(),
{
    if s.len() == 0 || s[0] == c {
    } else {
        assert forall|k: int| 0 <= k < i - 1 implies s.drop_first()[k] != c by {
            assert(s.drop_first()[k] == s[k + 1]);
        }
        lemma_first_of_is(s.drop_first(), c, i - 1);
    }
}

/// The pieces of `s` between the characters `c`, as spans of `s`: each
/// piece is `s[from..to]`.
pub fn split_spans(s: &[char], c: char) -> (spans: Vec<(usize, usize)>)
    ensures
        spans.len() == split_on(s@, c).len(),
        forall|i: int|
            0 <= i < spans.len() ==> (#[trigger] spans@[i]).0 <= spans@[i].1 <= s.len()
                && s@.subrange(spans@[i].0 as int, spans@[i].1 as int) == split_on(s@, c)[i],
{
    let mut spans: Vec<(usize, usize)> = Vec::new();
    let mut pos: usize = 0;
    proof {
        assert(s@.skip(0) =~= s@);
    }
    loop
        invariant
            pos <= s.len(),
            split_on(s@, c) == span_views(s@, spans@) + split_on(s@.skip(pos as int), c),
            forall|i: int| 0 <= i < spans.len() ==> (#[trigger] spans@[i]).0 <= spans@[i].1 <= s.len(),
        decreases s.len() - pos,
    {
        let mut end: usize = pos;
        while end < s.len() && s[end] != c
            invariant
                pos <= end <= s.len(),
                forall|k: int| pos <= k < end ==> s@[k] != c,
            decreases s.len() - end,
        {
            end += 1;
        }
        let ghost rest = s@.skip(pos as int);
        proof {
            lemma_first_of_is(rest, c, end - pos);
            assert(rest.subrange(0, end - pos) =~= s@.subrange(pos as int, end as int));
        }
        let ghost before = span_views(s@, spans@);
        spans.push((pos, end));
        proof {
            assert(span_views(s@, spans@) =~= before.push(s@.subrange(pos as int, end as int)));
        }
        if end == s.len() {
            proof {
                assert(rest =~= s@.subrange(pos as int, end as int));
                assert(split_on(s@, c) =~= span_views(s@, spans@));
                assert forall|i: int| 0 <= i < spans.len() implies s@.subrange(
                    (#[trigger] spans@[i]).0 as int,
                    spans@[i].1 as int,
                ) == split_on(s@, c)[i] by {
                    assert(span_views(s@, spans@)[i] == s@.subrange(
                        spans@[i].0 as int,
                        spans@[i].1 as int,
                    ));
                }
            }
            return spans;
        }
        proof {
            assert(rest.subrange(end - pos + 1, rest.len() as int) =~= s@.skip(end + 1));
            assert(before + (seq![s@.subrange(pos as int, end as int)] + split_on(
                s@.skip(end + 1),
                c,
            )) =~= before.push(s@.subrange(pos as int, end as int)) + split_on(
                s@.skip(end + 1),
                c,
            ));
        }
        pos = end + 1;
    }
}

/// The pieces of `s` that a list of spans cuts out.
pub open spec fn span_views(s: Seq<char>, spans: Seq<(usize, usize)>) -> Seq<Seq<char>> {
    Seq::new(spans.len(), |i: int| s.subrange(spans[i].0 as int, spans[i].1 as int))
}

/// The span of `s[from..to]` without the white space at its start and at
/// its end.
pub fn trim_span(s: &[char], from: usize, to: usize) -> (r: (usize, usize))
    requires
        from <= to <= s.len(),
    ensures
        from <= r.0 <= r.1 <= to,
        s@.subrange(r.0 as int, r.1 as int) == trim_of(s@.subrange(from as int, to as int)),
{
    let ghost whole = s@.subrange(from as int, to as int);
    let mut a: usize = from;
    proof {
        assert(whole.skip(0) =~= whole);
    }
    while a < to && char_is_whitespace(s[a])
        invariant
            from <= a <= to <= s.len(),
            whole == s@.subrange(from as int, to as int),
            leading_space(whole) == (a - from) + leading_space(whole.skip(a - from)),
        decreases to - a,
    {
        proof {
            assert(whole.skip(a - from)[0] == s@[a as int]);
            assert(whole.skip(a - from).drop_first() =~= whole.skip(a - from + 1));
        }
        a += 1;
    }
    proof {
        if a < to {
            assert(whole.skip(a - from)[0] == s@[a as int]);
        }
    }
    let ghost rest = whole.skip(a - from);
    let mut b: usize = to;
    proof {
        assert(rest.take(rest.len() as int) =~= rest);
    }
    while b > a && char_is_whitespace(s[b - 1])
        invariant
            from <= a <= b <= to <= s.len(),
            whole == s@.subrange(from as int, to as int),
            rest == whole.skip(a - from),
            trailing_space(rest) == (to - b) + trailing_space(rest.take(b - a)),
        decreases b - a,
    {
        proof {
            assert(rest.take(b - a).last() == s@[b - 1]);
            assert(rest.take(b - a).drop_last() =~= rest.take(b - a - 1));
        }
        b -= 1;
    }
    proof {
        if b > a {
            assert(rest.take(b - a).last() == s@[b - 1]);
        }
        assert(trim_start_of(whole) == rest);
        assert(rest.take(rest.len() - trailing_space(rest)) =~= s@.subrange(a as int, b as int));
    }
    (a, b)
}

/// The span of `s[from..to]` without the characters `c` at its start and
/// at its end.
pub fn trim_matches_span(s: &[char], from: usize, to: usize, c: char) -> (r: (usize, usize))
    requires
        from <= to <= s.len(),
    ensures
        from <= r.0 <= r.1 <= to,
        s@.subrange(r.0 as int, r.1 as int) == trim_matches_of(
            s@.subrange(from as int, to as int),
            c,
        ),
{
    let ghost whole = s@.subrange(from as int, to as int);
    let mut a: usize = from;
    proof {
        assert(whole.skip(0) =~= whole);
    }
    while a < to && s[a] == c
        invariant
            from <= a <= to <= s.len(),
            whole == s@.subrange(from as int, to as int),
            leading_run(whole, c) == (a - from) + leading_run(whole.skip(a - from), c),
        decreases to - a,
    {
        proof {
            assert(whole.skip(a - from)[0] == s@[a as int]);
            assert(whole.skip(a - from).drop_first() =~= whole.skip(a - from + 1));
        }
        a += 1;
    }
    proof {
        if a < to {
            assert(whole.skip(a - from)[0] == s@[a as int]);
        }
    }
    let ghost rest = whole.skip(a - from);
    let mut b: usize = to;
    proof {
        assert(rest.take(rest.len() as int) =~= rest);
    }
    while b > a && s[b - 1] == c
        invariant
            from <= a <= b <= to <= s.len(),
            whole == s@.subrange(from as int, to as int),
            rest == whole.skip(a - from),
            trailing_run(rest, c) == (to - b) + trailing_run(rest.take(b - a), c),
        decreases b - a,
    {
        proof {
            assert(rest.take(b - a).last() == s@[b - 1]);
            assert(rest.take(b - a).drop_last() =~= rest.take(b - a - 1));
        }
        b -= 1;
    }
    proof {
        if b > a {
            assert(rest.take(b - a).last() == s@[b - 1]);
        }
        assert(rest.take(rest.len() - trailing_run(rest, c)) =~= s@.subrange(a as int, b as int));
    }
    (a, b)
}

/// The first position at or after `from` where `p` occurs in `s`.
pub open spec fn first_occurrence(s: Seq<char>, p: Seq<char>, from: int) -> Option<int>
    decreases s.len() - from,
{
    if from < 0 || from > s.len() {
        None
    } else if occurs_at(s, p, from) {
        Some(from)
    } else if from == s.len() {
        None
    } else {
        first_occurrence(s, p, from + 1)
    }
}

/// A position where `p` occurs, with no occurrence between `from` and it,
/// is the first occurrence; and if `p` occurs nowhere from `from` on,
/// there is none.
pub proof fn lemma_first_occurrence(s: Seq<char>, p: Seq<char>, from: int, found: Option<int>)
    requires
        0 <= from,
        match found {
            Some(i) => from <= i && occurs_at(s, p, i) && forall|j: int|
                from <= j < i ==> !occurs_at(s, p, j),
            None => forall|j: int| from <= j ==> !occurs_at(s, p, j),
        },
    ensures
        first_occurrence(s, p, from) == found,
    decreases s.len() - from,
{
    if from < s.len() && !occurs_at(s, p, from) {
        lemma_first_occurrence(s, p, from + 1, found);
    }
}

/// What stands between the first and the second occurrence of `p` in
/// `s`, or after the first if there is no second; nothing if `p` does not
/// occur. Occurrences do not overlap.
pub open spec fn second_piece(s: Seq<char>, p: Seq<char>) -> Option<Seq<char>> {
    match first_occurrence(s, p, 0) {
        None => None,
        Some(i) => {
            let rest = s.skip(i + p.len());
            match first_occurrence(rest, p, 0) {
                None => Some(rest),
                Some(j) => Some(rest.take(j)),
            }
        },
    }
}

/// The number of characters at the start of `s` that are not among
/// `stops`.
pub open spec fn run_until(s: Seq<char>, stops: Seq<char>) -> nat
    decreases s.len(),
{
    if s.len() > 0 && !stops.contains(s[0]) {
        1 + run_until(s.drop_first(), stops)
    } else {
        0
    }
}

/// `s` up to the first of its characters that is among `stops`.
pub open spec fn piece_until(s: Seq<char>, stops: Seq<char>) -> Seq<char> {
    s.take(run_until(s, stops) as int)
}

/// The number of characters at the start of `s` that are not white
/// space.
pub open spec fn leading_word(s: Seq<char>) -> nat
    decreases s.len(),
{
    if s.len() > 0 && !is_whitespace(s[0]) {
        1 + leading_word(s.drop_first())
    } else {
        0
    }
}

/// The words of `s`: its runs of characters that are not white space.
pub open spec fn words_of(s: Seq<char>) -> Seq<Seq<char>>
    decreases s.len(),
{
    let rest = trim_start_of(s);
    if rest.len() == 0 {
        Seq::<Seq<char>>::empty()
    } else {
        let n = leading_word(rest);
        proof {
            lemma_leading_word(rest);
            lemma_leading_word(s);
        }
        if n == 0 {
            Seq::<Seq<char>>::empty()
        } else {
            seq![rest.take(n as int)] + words_of(rest.skip(n as int))
        }
    }
}

/// A word is not longer than the text that it starts.
pub proof fn lemma_leading_word(s: Seq<char>)
    ensures
        leading_word(s) <= s.len(),
        leading_space(s) <= s.len(),
    decreases s.len(),
{
    if s.len() > 0 {
        lemma_leading_word(s.drop_first());
    }
}

/// Whether a character is among `stops`.
pub fn is_among(c: char, stops: &[char]) -> (r: bool)
    ensures
        r == stops@.contains(c),
{
    let mut i: usize = 0;
    while i < stops.len()
        invariant
            i <= stops.len(),
            forall|j: int| 0 <= j < i ==> stops@[j] != c,
        decreases stops.len() - i,
    {
        if stops[i] == c {
            return true;
        }
        i += 1;
    }
    false
}

/// The end of `s[from..to]` cut at the first character among `stops`.
pub fn until_any(s: &[char], from: usize, to: usize, stops: &[char]) -> (end: usize)
    requires
        from <= to <= s.len(),
    ensures
        from <= end <= to,
        s@.subrange(from as int, end as int) == piece_until(
            s@.subrange(from as int, to as int),
            stops@,
        ),
{
    let ghost whole = s@.subrange(from as int, to as int);
    let mut end: usize = from;
    proof {
        assert(whole.skip(0) =~= whole);
    }
    while end < to && !is_among(s[end], stops)
        invariant
            from <= end <= to <= s.len(),
            whole == s@.subrange(from as int, to as int),
            run_until(whole, stops@) == (end - from) + run_until(whole.skip(end - from), stops@),
        decreases to - end,
    {
        proof {
            assert(whole.skip(end - from)[0] == s@[end as int]);
            assert(whole.skip(end - from).drop_first() =~= whole.skip(end - from + 1));
        }
        end += 1;
    }
    proof {
        if end < to {
            assert(whole.skip(end - from)[0] == s@[end as int]);
        }
        assert(whole.take(end - from) =~= s@.subrange(from as int, end as int));
    }
    end
}

/// The start of `s[from..to]` without the white space before it.
pub fn skip_space(s: &[char], from: usize, to: usize) -> (start: usize)
    requires
        from <= to <= s.len(),
    ensures
        from <= start <= to,
        s@.subrange(start as int, to as int) == trim_start_of(s@.subrange(from as int, to as int)),
        start - from == leading_space(s@.subrange(from as int, to as int)),
{
    let ghost whole = s@.subrange(from as int, to as int);
    let mut a: usize = from;
    proof {
        assert(whole.skip(0) =~= whole);
    }
    while a < to && char_is_whitespace(s[a])
        invariant
            from <= a <= to <= s.len(),
            whole == s@.subrange(from as int, to as int),
            leading_space(whole) == (a - from) + leading_space(whole.skip(a - from)),
        decreases to - a,
    {
        proof {
            assert(whole.skip(a - from)[0] == s@[a as int]);
            assert(whole.skip(a - from).drop_first() =~= whole.skip(a - from + 1));
        }
        a += 1;
    }
    proof {
        if a < to {
            assert(whole.skip(a - from)[0] == s@[a as int]);
        }
        assert(whole.skip(a - from) =~= s@.subrange(a as int, to as int));
    }
    a
}

/// The end of the word that starts `s[from..to]`.
pub fn word_end(s: &[char], from: usize, to: usize) -> (end: usize)
    requires
        from <= to <= s.len(),
    ensures
        from <= end <= to,
        end - from == leading_word(s@.subrange(from as int, to as int)),
{
    let ghost whole = s@.subrange(from as int, to as int);
    let mut a: usize = from;
    proof {
        assert(whole.skip(0) =~= whole);
    }
    while a < to && !char_is_whitespace(s[a])
        invariant
            from <= a <= to <= s.len(),
            whole == s@.subrange(from as int, to as int),
            leading_word(whole) == (a - from) + leading_word(whole.skip(a - from)),
        decreases to - a,
    {
        proof {
            assert(whole.skip(a - from)[0] == s@[a as int]);
            assert(whole.skip(a - from).drop_first() =~= whole.skip(a - from + 1));
        }
        a += 1;
    }
    proof {
        if a < to {
            assert(whole.skip(a - from)[0] == s@[a as int]);
        }
    }
    a
}

/// The words of `s`, as spans of `s`.
pub fn split_words(s: &[char]) -> (spans: Vec<(usize, usize)>)
    ensures
        span_views(s@, spans@) == words_of(s@),
        forall|i: int| 0 <= i < spans.len() ==> (#[trigger] spans@[i]).0 <= spans@[i].1 <= s.len(),
{
    let mut spans: Vec<(usize, usize)> = Vec::new();
    let mut pos: usize = 0;
    proof {
        assert(s@.skip(0) =~= s@);
        assert(span_views(s@, spans@) =~= Seq::<Seq<char>>::empty());
    }
    loop
        invariant
            pos <= s.len(),
            words_of(s@) == span_views(s@, spans@) + words_of(s@.skip(pos as int)),
            forall|i: int| 0 <= i < spans.len() ==> (#[trigger] spans@[i]).0 <= spans@[i].1 <= s.len(),
        decreases s.len() - pos,
    {
        let ghost tail = s@.skip(pos as int);
        proof {
            assert(tail =~= s@.subrange(pos as int, s.len() as int));
        }
        let start = skip_space(s, pos, s.len());
        let end = word_end(s, start, s.len());
        if end == start {
            proof {
                assert(span_views(s@, spans@) + Seq::<Seq<char>>::empty() =~= span_views(
                    s@,
                    spans@,
                ));
            }
            return spans;
        }
        let ghost rest = trim_start_of(tail);
        let ghost before = span_views(s@, spans@);
        proof {
            assert(rest =~= s@.subrange(start as int, s.len() as int));
            assert(rest.take(end - start) =~= s@.subrange(start as int, end as int));
            assert(rest.skip(end - start) =~= s@.skip(end as int));
        }
        spans.push((start, end));
        proof {
            assert(span_views(s@, spans@) =~= before.push(s@.subrange(start as int, end as int)));
            assert(before + (seq![s@.subrange(start as int, end as int)] + words_of(
                s@.skip(end as int),
            )) =~= before.push(s@.subrange(start as int, end as int)) + words_of(
                s@.skip(end as int),
            ));
        }
        pos = end;
    }
}

/// The span of the second piece of `s[from..to]` when it is cut at the
/// occurrences of `p`.
pub fn second_piece_span(s: &[char], from: usize, to: usize, p: &[char]) -> (r: Option<
    (usize, usize),
>)
    requires
        from <= to <= s.len(),
    ensures
        match r {
            Some((a, b)) => from <= a <= b <= to && second_piece(
                s@.subrange(from as int, to as int),
                p@,
            ) == Some(s@.subrange(a as int, b as int)),
            None => second_piece(s@.subrange(from as int, to as int), p@) is None,
        },
{
    let whole = vstd::slice::slice_subrange(s, from, to);
    let first = find_from(whole, p, 0);
    proof {
        lemma_first_occurrence(
            whole@,
            p@,
            0,
            match first {
                Some(i) => Some(i as int),
                None => None,
            },
        );
    }
    match first {
        None => None,
        Some(i) => {
            let a: usize = i + p.len();
            let rest = vstd::slice::slice_subrange(whole, a, whole.len());
            let next = find_from(rest, p, 0);
            proof {
                lemma_first_occurrence(
                    rest@,
                    p@,
                    0,
                    match next {
                        Some(j) => Some(j as int),
                        None => None,
                    },
                );
                assert(rest@ =~= whole@.skip(a as int));
            }
            match next {
                None => {
                    proof {
                        assert(rest@ =~= s@.subrange(from + a, to as int));
                    }
                    Some((from + a, to))
                },
                Some(j) => {
                    proof {
                        assert(rest@.take(j as int) =~= s@.subrange(from + a, from + a + j));
                    }
                    Some((from + a, from + a + j))
                },
            }
        },
    }
}

/// How often `p` occurs in `s`, counting from the left and without
/// overlap. `p` must not be empty.
pub open spec fn count_occurrences(s: Seq<char>, p: Seq<char>) -> nat
    decreases s.len(),
{
    match first_occurrence(s, p, 0) {
        None => 0,
        Some(i) => if p.len() == 0 || i < 0 || i + p.len() > s.len() {
            0
        } else {
            1 + count_occurrences(s.skip(i + p.len()), p)
        },
    }
}

/// How often `p` occurs in `s`, counting from the left and without
/// overlap.
pub fn count_matches(s: &[char], p: &[char]) -> (n: usize)
    requires
        p.len() > 0,
    ensures
        n == count_occurrences(s@, p@),
{
    let mut n: usize = 0;
    let mut pos: usize = 0;
    proof {
        assert(s@.skip(0) =~= s@);
    }
    loop
        invariant
            pos <= s.len(),
            p.len() > 0,
            n <= pos,
            count_occurrences(s@, p@) == n + count_occurrences(s@.skip(pos as int), p@),
        decreases s.len() - pos,
    {
        let rest = vstd::slice::slice_subrange(s, pos, s.len());
        let found = find_from(rest, p, 0);
        proof {
            assert(rest@ =~= s@.skip(pos as int));
            lemma_first_occurrence(
                rest@,
                p@,
                0,
                match found {
                    Some(i) => Some(i as int),
                    None => None,
                },
            );
        }
        match found {
            None => {
                return n;
            },
            Some(i) => {
                proof {
                    assert(rest@.skip(i + p.len()) =~= s@.skip(pos + i + p.len()));
                }
                n += 1;
                pos = pos + i + p.len();
            },
        }
    }
}

} // verus!
