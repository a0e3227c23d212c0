//! Text: the order of strings, decimal numbers, and the small pieces
//! that output lines are made of.
use crate::order::{
    int_order, lawful, lemma_seq_order_equal, lemma_seq_order_flips, lemma_seq_order_skip,
    lemma_seq_order_transitive, seq_order, Order,
};
use vstd::prelude::*;
use vstd::string::*;
use vstd::utf8::*;

verus! {

/// The order of two bytes.
pub open spec fn byte_order() -> spec_fn(u8, u8) -> Order {
    |a: u8, b: u8| int_order(a as int, b as int)
}

/// The lexicographic order of two byte strings.
pub open spec fn bytes_order(a: Seq<u8>, b: Seq<u8>) -> Order {
    seq_order(byte_order(), a, b)
}

/// The order of two texts: that of their UTF-8 encodings, byte by byte,
/// which orders them by code point as well.
pub open spec fn text_order(a: Seq<char>, b: Seq<char>) -> Order {
    bytes_order(encode_utf8(a), encode_utf8(b))
}

/// The order of bytes is lawful.
pub proof fn lemma_byte_order_lawful()
    ensures
        lawful(byte_order()),
{
    let ord = byte_order();
    assert forall|a: u8, b: u8| (#[trigger] ord(a, b) is Equal) <==> a == b by {}
    assert forall|a: u8, b: u8| (#[trigger] ord(a, b) is Less) <==> (ord(b, a) is Greater) by {}
    assert forall|a: u8, b: u8, c: u8|
        (#[trigger] ord(a, b) is Less) && (#[trigger] ord(b, c) is Less) implies ord(a, c)
        is Less by {}
}

/// Two texts with the same encoding are the same text.
pub proof fn lemma_encoding_is_injective(a: Seq<char>, b: Seq<char>)
    requires
        encode_utf8(a) == encode_utf8(b),
    ensures
        a == b,
{
    encode_utf8_decode_utf8(a);
    encode_utf8_decode_utf8(b);
}

/// Two ASCII texts that agree before position `k`, where the first one ends
/// or holds the smaller character, are in order.
pub proof fn lemma_ascii_less_at(a: Seq<char>, b: Seq<char>, k: int)
    requires
        is_ascii_chars(a),
        is_ascii_chars(b),
        0 <= k <= a.len(),
        k <= b.len(),
        forall|i: int| 0 <= i < k ==> a[i] == b[i],
        (k == a.len() && k < b.len()) || (k < a.len() && k < b.len() && (a[k] as u8) < (b[k] as u8)),
    ensures
        text_order(a, b) is Less,
{
    let x = encode_utf8(a);
    let y = encode_utf8(b);
    is_ascii_chars_encode_utf8(a);
    is_ascii_chars_encode_utf8(b);
    assert forall|i: int| 0 <= i < k implies x[i] == y[i] by {
        assert(a[i] as u8 == x[i]);
        assert(b[i] as u8 == y[i]);
    }
    assert(x.take(k) =~= y.take(k));
    lemma_byte_order_lawful();
    lemma_seq_order_skip(byte_order(), x, y, k);
    if k < a.len() {
        assert(x.skip(k)[0] == a[k] as u8);
        assert(y.skip(k)[0] == b[k] as u8);
    }
}

/// The order of texts ties exactly on identical texts.
pub proof fn lemma_text_order_equal(a: Seq<char>, b: Seq<char>)
    ensures
        (text_order(a, b) is Equal) <==> a == b,
{
    lemma_byte_order_lawful();
    lemma_seq_order_equal(byte_order(), encode_utf8(a), encode_utf8(b));
    if encode_utf8(a) == encode_utf8(b) {
        lemma_encoding_is_injective(a, b);
    }
}

/// Swapping two texts swaps `Less` and `Greater`.
pub proof fn lemma_text_order_flips(a: Seq<char>, b: Seq<char>)
    ensures
        (text_order(a, b) is Less) <==> (text_order(b, a) is Greater),
{
    lemma_byte_order_lawful();
    lemma_seq_order_flips(byte_order(), encode_utf8(a), encode_utf8(b));
}

/// `Less` between texts is transitive.
pub proof fn lemma_text_order_transitive(a: Seq<char>, b: Seq<char>, c: Seq<char>)
    requires
        text_order(a, b) is Less,
        text_order(b, c) is Less,
    ensures
        text_order(a, c) is Less,
{
    lemma_byte_order_lawful();
    lemma_seq_order_transitive(byte_order(), encode_utf8(a), encode_utf8(b), encode_utf8(c));
}

/// Compares two byte strings lexicographically.
pub fn order_of_bytes(a: &[u8], b: &[u8]) -> (r: Order)
    ensures
        r == bytes_order(a@, b@),
{
    let mut i: usize = 0;
    while i < a.len() && i < b.len()
        invariant
            i <= a.len(),
            i <= b.len(),
            a@.take(i as int) == b@.take(i as int),
        decreases a.len() - i,
    {
        let x: u8 = a[i];
        let y: u8 = b[i];
        if x != y {
            proof {
                lemma_byte_order_lawful();
                lemma_seq_order_skip(byte_order(), a@, b@, i as int);
                assert(a@.skip(i as int)[0] == x);
                assert(b@.skip(i as int)[0] == y);
            }
            if x < y {
                return Order::Less;
            } else {
                return Order::Greater;
            }
        }
        proof {
            assert(a@.take(i + 1) =~= a@.take(i as int).push(x));
            assert(b@.take(i + 1) =~= b@.take(i as int).push(y));
        }
        i = i + 1;
    }
    proof {
        lemma_byte_order_lawful();
        lemma_seq_order_skip(byte_order(), a@, b@, i as int);
    }
    if i < b.len() {
        Order::Less
    } else if i < a.len() {
        Order::Greater
    } else {
        Order::Equal
    }
}

/// Compares two texts.
pub fn order_of_text(a: &str, b: &str) -> (r: Order)
    ensures
        r == text_order(a@, b@),
{
    order_of_bytes(a.as_bytes(), b.as_bytes())
}

/// Whether a capture name marks its capture as silent: it starts with `_`.
pub open spec fn is_silent(name: Seq<char>) -> bool {
    name.len() > 0 && name[0] == '_'
}

/// Tells whether a capture name starts with `_`.
pub fn starts_with_underscore(name: &str) -> (r: bool)
    ensures
        r == is_silent(name@),
{
    if name.is_empty() {
        false
    } else {
        name.get_char(0) == '_'
    }
}

/// The character of a decimal digit.
pub open spec fn digit_char(d: nat) -> char {
    if d == 0 {
        '0'
    } else if d == 1 {
        '1'
    } else if d == 2 {
        '2'
    } else if d == 3 {
        '3'
    } else if d == 4 {
        '4'
    } else if d == 5 {
        '5'
    } else if d == 6 {
        '6'
    } else if d == 7 {
        '7'
    } else if d == 8 {
        '8'
    } else {
        '9'
    }
}

/// The decimal numeral of a number: no sign, no leading zero but for zero itself.
pub open spec fn decimal(n: nat) -> Seq<char>
    decreases n,
{
    if n < 10 {
        seq![digit_char(n)]
    } else {
        decimal(n / 10).push(digit_char(n % 10))
    }
}

/// The one-character text of a decimal digit.
pub fn digit_text(d: u8) -> (r: &'static str)
    requires
        d < 10,
    ensures
        r@ == seq![digit_char(d as nat)],
{
    proof {
        reveal_strlit("0");
        reveal_strlit("1");
        reveal_strlit("2");
        reveal_strlit("3");
        reveal_strlit("4");
        reveal_strlit("5");
        reveal_strlit("6");
        reveal_strlit("7");
        reveal_strlit("8");
        reveal_strlit("9");
    }
    let r = if d == 0 {
        "0"
    } else if d == 1 {
        "1"
    } else if d == 2 {
        "2"
    } else if d == 3 {
        "3"
    } else if d == 4 {
        "4"
    } else if d == 5 {
        "5"
    } else if d == 6 {
        "6"
    } else if d == 7 {
        "7"
    } else if d == 8 {
        "8"
    } else {
        "9"
    };
    assert(r@ =~= seq![digit_char(d as nat)]);
    r
}

/// The digits of `n` from the last to the first.
spec fn digits_reversed(n: nat) -> Seq<u8>
    decreases n,
{
    if n < 10 {
        seq![n as u8]
    } else {
        seq![(n % 10) as u8] + digits_reversed(n / 10)
    }
}

/// The numeral spelled by a sequence of digits read from its end to its start.
spec fn spelled_backwards(digits: Seq<u8>) -> Seq<char>
    decreases digits.len(),
{
    if digits.len() == 0 {
        Seq::empty()
    } else {
        seq![digit_char(digits.last() as nat)] + spelled_backwards(digits.drop_last())
    }
}

proof fn lemma_spelled_backwards_prepend(d: u8, rest: Seq<u8>)
    ensures
        spelled_backwards(seq![d] + rest) == spelled_backwards(rest).push(digit_char(d as nat)),
    decreases rest.len(),
{
    let all = seq![d] + rest;
    if rest.len() == 0 {
        assert(all.drop_last() =~= Seq::<u8>::empty());
        assert(spelled_backwards(all.drop_last()) =~= Seq::<char>::empty());
        assert(spelled_backwards(rest) =~= Seq::<char>::empty());
        assert(spelled_backwards(all) =~= seq![digit_char(d as nat)]);
        assert(spelled_backwards(rest).push(digit_char(d as nat)) =~= seq![
            digit_char(d as nat),
        ]);
    } else {
        assert(all.last() == rest.last());
        assert(all.drop_last() =~= seq![d] + rest.drop_last());
        lemma_spelled_backwards_prepend(d, rest.drop_last());
        assert(spelled_backwards(all) =~= spelled_backwards(rest).push(digit_char(d as nat)));
    }
}

proof fn lemma_digits_spell_decimal(n: nat)
    ensures
        spelled_backwards(digits_reversed(n)) == decimal(n),
        digits_reversed(n).len() > 0,
        forall|i: int| 0 <= i < digits_reversed(n).len() ==> #[trigger] digits_reversed(n)[i] < 10,
    decreases n,
{
    if n < 10 {
        let one = seq![n as u8];
        assert(one.drop_last() =~= Seq::<u8>::empty());
        assert(spelled_backwards(one.drop_last()) =~= Seq::<char>::empty());
        assert(spelled_backwards(one) =~= seq![digit_char(n)]);
    } else {
        lemma_digits_spell_decimal(n / 10);
        lemma_spelled_backwards_prepend((n % 10) as u8, digits_reversed(n / 10));
    }
}

/// Writes a number in decimal.
pub fn decimal_text(n: u128) -> (r: String)
    ensures
        r@ == decimal(n as nat),
{
    let mut digits: Vec<u8> = Vec::new();
    let mut rest: u128 = n;
    while rest >= 10
        invariant
            digits_reversed(n as nat) == digits@ + digits_reversed(rest as nat),
        decreases rest,
    {
        let d: u8 = (rest % 10) as u8;
        proof {
            assert(digits_reversed(rest as nat) == seq![d] + digits_reversed((rest / 10) as nat));
            assert(digits@.push(d) + digits_reversed((rest / 10) as nat) =~= digits@
                + digits_reversed(rest as nat));
        }
        digits.push(d);
        rest = rest / 10;
    }
    digits.push(rest as u8);
    proof {
        assert(digits@ =~= digits_reversed(n as nat));
        lemma_digits_spell_decimal(n as nat);
    }
    let mut out = String::new();
    let mut k: usize = digits.len();
    proof {
        assert(digits@.take(k as int) =~= digits@);
        assert(out@ + spelled_backwards(digits@) =~= spelled_backwards(digits@));
    }
    while k > 0
        invariant
            k <= digits.len(),
            forall|i: int| 0 <= i < digits.len() ==> #[trigger] digits[i] < 10,
            out@ + spelled_backwards(digits@.take(k as int)) == spelled_backwards(digits@),
        decreases k,
    {
        k = k - 1;
        let d: u8 = digits[k];
        proof {
            let before = digits@.take(k + 1);
            assert(before.last() == d);
            assert(before.drop_last() =~= digits@.take(k as int));
            assert(out@ + seq![digit_char(d as nat)] + spelled_backwards(digits@.take(k as int))
                =~= out@ + spelled_backwards(before));
        }
        out.append(digit_text(d));
    }
    proof {
        assert(digits@.take(0) =~= Seq::<u8>::empty());
        assert(out@ =~= out@ + spelled_backwards(digits@.take(0)));
    }
    out
}

/// The parts of a list written one after another with `sep` between them.
pub open spec fn joined(parts: Seq<Seq<char>>, sep: Seq<char>) -> Seq<char>
    decreases parts.len(),
{
    if parts.len() == 0 {
        Seq::empty()
    } else if parts.len() == 1 {
        parts[0]
    } else {
        joined(parts.drop_last(), sep) + sep + parts.last()
    }
}

/// Writes the parts of a list one after another with `sep` between them.
pub fn join(parts: &Vec<String>, sep: &str) -> (r: String)
    ensures
        r@ == joined(parts.deep_view(), sep@),
{
    let mut out = String::new();
    let mut i: usize = 0;
    while i < parts.len()
        invariant
            i <= parts.len(),
            out@ == joined(parts.deep_view().take(i as int), sep@),
        decreases parts.len() - i,
    {
        proof {
            let before = parts.deep_view().take(i as int);
            let now = parts.deep_view().take(i + 1);
            assert(now.drop_last() =~= before);
            assert(now.last() == parts[i as int]@);
            if i == 0 {
                assert(out@ + parts[i as int]@ =~= joined(now, sep@));
            }
        }
        if i > 0 {
            out.append(sep);
        }
        out.append(parts[i].as_str());
        i = i + 1;
    }
    proof {
        assert(parts.deep_view().take(parts.len() as int) =~= parts.deep_view());
    }
    out
}

} // verus!
