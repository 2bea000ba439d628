//! Text building and comparison: numerals, joining, equality and order.
use crate::model;
use vstd::prelude::*;
use vstd::string::*;
use vstd::utf8::*;

verus! {

/// The digit `d` (below sixteen) in lower case.
pub open spec fn digit_char(d: nat) -> char {
    if d < 10 {
        (48 + d) as char
    } else {
        (87 + d) as char
    }
}

/// The decimal numeral of `n`, without leading zeros.
pub open spec fn decimal(n: nat) -> Seq<char>
    decreases n,
{
    if n < 10 {
        seq![digit_char(n)]
    } else {
        decimal(n / 10).push(digit_char(n % 10))
    }
}

/// The hexadecimal numeral of `n`, without leading zeros.
pub open spec fn hexadecimal(n: nat) -> Seq<char>
    decreases n,
{
    if n < 16 {
        seq![digit_char(n)]
    } else {
        hexadecimal(n / 16).push(digit_char(n % 16))
    }
}

/// The last `width` hexadecimal digits of `n`.
pub open spec fn padded_hexadecimal(n: nat, width: nat) -> Seq<char>
    decreases width,
{
    if width == 0 {
        Seq::<char>::empty()
    } else {
        padded_hexadecimal(n / 16, (width - 1) as nat).push(digit_char(n % 16))
    }
}

/// The digit `d` as a text.
pub fn digit_text(d: u8) -> (t: &'static str)
    requires
        d < 16,
    ensures
        t@ == seq![digit_char(d as nat)],
{
    let t = match d {
        0 => "0",
        1 => "1",
        2 => "2",
        3 => "3",
        4 => "4",
        5 => "5",
        6 => "6",
        7 => "7",
        8 => "8",
        9 => "9",
        10 => "a",
        11 => "b",
        12 => "c",
        13 => "d",
        14 => "e",
        _ => "f",
    };
    proof {
        reveal_strlit("0");
        reveal_strlit("1");
        reveal_strlit("2");
        reveal_strlit("3");
        reveal_strlit("4");
        reveal_strlit("5");
        reveal_strlit("6");
        reveal_strlit("7");
        reveal_strlit("8");
        reveal_strlit("9");
        reveal_strlit("a");
        reveal_strlit("b");
        reveal_strlit("c");
        reveal_strlit("d");
        reveal_strlit("e");
        reveal_strlit("f");
        assert(t@ =~= seq![digit_char(d as nat)]);
    }
    t
}

/// Appends the decimal numeral of `n`.
pub fn push_decimal(text: &mut String, n: u128)
    ensures
        final(text)@ == old(text)@ + decimal(n as nat),
    decreases n,
{
    let ghost before = text@;
    if n < 10 {
        text.append(digit_text(n as u8));
    } else {
        push_decimal(text, n / 10);
        text.append(digit_text((n % 10) as u8));
        assert(text@ =~= before + decimal(n as nat));
    }
}

/// Appends the hexadecimal numeral of `n`.
pub fn push_hexadecimal(text: &mut String, n: u128)
    ensures
        final(text)@ == old(text)@ + hexadecimal(n as nat),
    decreases n,
{
    let ghost before = text@;
    if n < 16 {
        text.append(digit_text(n as u8));
    } else {
        push_hexadecimal(text, n / 16);
        text.append(digit_text((n % 16) as u8));
        assert(text@ =~= before + hexadecimal(n as nat));
    }
}

/// Appends the last `width` hexadecimal digits of `n`.
pub fn push_padded_hexadecimal(text: &mut String, n: u128, width: u32)
    ensures
        final(text)@ == old(text)@ + padded_hexadecimal(n as nat, width as nat),
    decreases width,
{
    let ghost before = text@;
    if width > 0 {
        push_padded_hexadecimal(text, n / 16, width - 1);
        text.append(digit_text((n % 16) as u8));
    }
    assert(text@ =~= before + padded_hexadecimal(n as nat, width as nat));
}

/// The decimal numeral of `n`.
pub fn decimal_text(n: u128) -> (t: String)
    ensures
        t@ == decimal(n as nat),
{
    let mut t = String::new();
    push_decimal(&mut t, n);
    assert(t@ =~= decimal(n as nat));
    t
}

/// An owned copy of a text.
pub fn text(t: &str) -> (r: String)
    ensures
        r@ == t@,
{
    String::from_str(t)
}

/// The texts with `|` between them.
pub open spec fn joined(parts: Seq<Seq<char>>) -> Seq<char>
    decreases parts.len(),
{
    if parts.len() == 0 {
        Seq::<char>::empty()
    } else if parts.len() == 1 {
        parts[0]
    } else {
        joined(parts.drop_last()) + "|"@ + parts.last()
    }
}

/// The texts with `|` between them.
pub fn join(parts: &Vec<String>) -> (r: String)
    ensures
        r@ == joined(parts.deep_view()),
{
    broadcast use model::group_views;

    let mut r = String::new();
    let mut i: usize = 0;
    proof {
        model::take_all(model::views(parts@));
    }
    while i < parts.len()
        invariant
            i <= parts.len(),
            r@ == joined(model::views(parts@).take(i as int)),
        decreases parts.len() - i,
    {
        proof {
            model::take_step(model::views(parts@), i as int);
            assert(model::views(parts@).take(i as int + 1).drop_last() =~= model::views(parts@).take(i as int));
        }
        if i > 0 {
            r.append("|");
            r.append(parts[i].as_str());
        } else {
            r.append(parts[i].as_str());
            assert(r@ =~= parts@[0]@);
        }
        i = i + 1;
    }
    proof {
        model::take_all(model::views(parts@));
    }
    r
}

/// `count` copies of one character.
pub open spec fn repeated(c: char, count: nat) -> Seq<char> {
    Seq::new(count, |i: int| c)
}

/// `count` copies of the one-character text `t`.
pub fn repeat(t: &str, count: usize) -> (r: String)
    requires
        t@.len() == 1,
    ensures
        r@ == repeated(t@[0], count as nat),
{
    let mut r = String::new();
    let mut i: usize = 0;
    while i < count
        invariant
            i <= count,
            t@.len() == 1,
            r@ =~= repeated(t@[0], i as nat),
        decreases count - i,
    {
        r.append(t);
        i = i + 1;
    }
    r
}

/// Texts are equal when their encodings are.
pub proof fn encoding_injective(a: Seq<char>, b: Seq<char>)
    ensures
        (encode_utf8(a) == encode_utf8(b)) <==> (a == b),
{
    encode_utf8_decode_utf8(a);
    encode_utf8_decode_utf8(b);
}

/// Whether two texts are equal.
pub fn text_eq(a: &str, b: &str) -> (r: bool)
    ensures
        r == (a@ == b@),
{
    let x = a.as_bytes();
    let y = b.as_bytes();
    proof {
        encoding_injective(a@, b@);
    }
    if x.len() != y.len() {
        return false;
    }
    let mut i: usize = 0;
    while i < x.len()
        invariant
            i <= x.len(),
            x.len() == y.len(),
            forall|j: int| 0 <= j < i ==> x@[j] == y@[j],
            x@ == encode_utf8(a@),
            y@ == encode_utf8(b@),
            (encode_utf8(a@) == encode_utf8(b@)) <==> (a@ == b@),
        decreases x.len() - i,
    {
        if x[i] != y[i] {
            return false;
        }
        i = i + 1;
    }
    assert(x@ =~= y@);
    true
}

/// Dictionary order of byte strings.
pub open spec fn bytes_before(a: Seq<u8>, b: Seq<u8>) -> bool
    decreases a.len(),
{
    if b.len() == 0 {
        false
    } else if a.len() == 0 {
        true
    } else {
        a[0] < b[0] || (a[0] == b[0] && bytes_before(a.skip(1), b.skip(1)))
    }
}

/// Dictionary order of texts, by their UTF-8 encodings.
pub open spec fn text_before(a: Seq<char>, b: Seq<char>) -> bool {
    bytes_before(encode_utf8(a), encode_utf8(b))
}

pub proof fn bytes_before_irreflexive(a: Seq<u8>)
    ensures
        !bytes_before(a, a),
    decreases a.len(),
{
    if a.len() > 0 {
        bytes_before_irreflexive(a.skip(1));
    }
}

pub proof fn bytes_before_transitive(a: Seq<u8>, b: Seq<u8>, c: Seq<u8>)
    requires
        bytes_before(a, b),
        bytes_before(b, c),
    ensures
        bytes_before(a, c),
    decreases a.len(),
{
    if a.len() > 0 && b.len() > 0 && c.len() > 0 && a[0] == b[0] && b[0] == c[0] {
        bytes_before_transitive(a.skip(1), b.skip(1), c.skip(1));
    }
}

pub proof fn bytes_before_total(a: Seq<u8>, b: Seq<u8>)
    ensures
        a == b || bytes_before(a, b) || bytes_before(b, a),
    decreases a.len(),
{
    if a.len() == 0 || b.len() == 0 {
        if a.len() == b.len() {
            assert(a =~= b);
        }
    } else if a[0] == b[0] {
        bytes_before_total(a.skip(1), b.skip(1));
        if a.skip(1) == b.skip(1) {
            assert(a =~= seq![a[0]] + a.skip(1));
            assert(b =~= seq![b[0]] + b.skip(1));
        }
    }
}

/// Of two texts with the same first bytes, the one comes first whose next byte is the lower, or that
/// ends there while the other goes on.
pub proof fn first_difference_decides(a: Seq<char>, b: Seq<char>, n: nat)
    requires
        n <= encode_utf8(a).len(),
        n < encode_utf8(b).len(),
        encode_utf8(a).take(n as int) == encode_utf8(b).take(n as int),
        n < encode_utf8(a).len() ==> encode_utf8(a)[n as int] < encode_utf8(b)[n as int],
    ensures
        text_before(a, b),
        !text_before(b, a),
{
    bytes_decide(encode_utf8(a), encode_utf8(b), n);
}

proof fn bytes_decide(a: Seq<u8>, b: Seq<u8>, n: nat)
    requires
        n <= a.len(),
        n < b.len(),
        a.take(n as int) == b.take(n as int),
        n < a.len() ==> a[n as int] < b[n as int],
    ensures
        bytes_before(a, b),
        !bytes_before(b, a),
    decreases n,
{
    if n > 0 {
        let x = a.take(n as int);
        let y = b.take(n as int);
        assert forall|i: int| 0 <= i < n implies #[trigger] a[i] == b[i] by {
            assert(x[i] == a[i]);
            assert(y[i] == b[i]);
        }
        assert(a.skip(1).take(n - 1) =~= b.skip(1).take(n - 1));
        bytes_decide(a.skip(1), b.skip(1), (n - 1) as nat);
    }
}

/// Whether `a` comes before `b` in dictionary order.
pub fn text_precedes(a: &str, b: &str) -> (r: bool)
    ensures
        r == text_before(a@, b@),
{
    let x = a.as_bytes();
    let y = b.as_bytes();
    let mut i: usize = 0;
    assert(x@.skip(0) =~= x@);
    assert(y@.skip(0) =~= y@);
    while i < x.len() && i < y.len()
        invariant
            i <= x.len(),
            i <= y.len(),
            x@ == encode_utf8(a@),
            y@ == encode_utf8(b@),
            bytes_before(x@, y@) == bytes_before(x@.skip(i as int), y@.skip(i as int)),
        decreases x.len() - i,
    {
        proof {
            assert(x@.skip(i as int).skip(1) =~= x@.skip(i as int + 1));
            assert(y@.skip(i as int).skip(1) =~= y@.skip(i as int + 1));
        }
        if x[i] < y[i] {
            return true;
        }
        if y[i] < x[i] {
            return false;
        }
        i = i + 1;
    }
    i < y.len()
}

/// Whether the bytes `part` stand in `whole` from index `at` on.
pub open spec fn stands_at(whole: Seq<u8>, part: Seq<u8>, at: int) -> bool {
    0 <= at && at + part.len() <= whole.len() && whole.subrange(at, at + part.len()) == part
}

/// Whether the text `part` occurs in the text `whole`.
pub open spec fn occurs_in(whole: Seq<char>, part: Seq<char>) -> bool {
    exists|at: int| stands_at(encode_utf8(whole), encode_utf8(part), at)
}

/// Whether `part` occurs in `whole`.
pub fn text_contains(whole: &str, part: &str) -> (r: bool)
    ensures
        r == occurs_in(whole@, part@),
{
    let x = whole.as_bytes();
    let y = part.as_bytes();
    if y.len() > x.len() {
        return false;
    }
    let mut at: usize = 0;
    while at <= x.len() - y.len()
        invariant
            y.len() <= x.len(),
            at <= x.len() - y.len() + 1,
            x@ == encode_utf8(whole@),
            y@ == encode_utf8(part@),
            forall|k: int| 0 <= k < at ==> !#[trigger] stands_at(x@, y@, k),
        decreases x.len() - at,
    {
        let mut i: usize = 0;
        while i < y.len() && x[at + i] == y[i]
            invariant
                i <= y.len(),
                at + y.len() <= x.len(),
                forall|k: int| 0 <= k < i ==> x@[at + k] == y@[k],
            decreases y.len() - i,
        {
            i = i + 1;
        }
        if i == y.len() {
            assert(x@.subrange(at as int, at + y@.len()) =~= y@);
            assert(stands_at(x@, y@, at as int));
            return true;
        }
        assert(!stands_at(x@, y@, at as int)) by {
            if stands_at(x@, y@, at as int) {
                assert(x@.subrange(at as int, at + y@.len())[i as int] == y@[i as int]);
            }
        }
        at = at + 1;
    }
    false
}

} // verus!
