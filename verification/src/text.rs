use vstd::prelude::*;
use vstd::relations::*;
use vstd::string::*;
use vstd::utf8::*;

verus! {

/// Lexicographic order on texts, character by character: a proper prefix
/// comes before the longer text. On ASCII texts this is the order of their
/// bytes.
pub open spec fn text_le(a: Seq<char>, b: Seq<char>) -> bool
    decreases a.len(),
{
    if a.len() == 0 {
        true
    } else if b.len() == 0 {
        false
    } else if a[0] != b[0] {
        a[0] < b[0]
    } else {
        text_le(a.drop_first(), b.drop_first())
    }
}

/// [`text_le`] as a relation, for the sorting lemmas.
pub open spec fn text_order() -> spec_fn(Seq<char>, Seq<char>) -> bool {
    |a: Seq<char>, b: Seq<char>| text_le(a, b)
}

/// Every text comes before or equals itself.
pub proof fn lemma_text_le_reflexive(a: Seq<char>)
    ensures
        text_le(a, a),
    decreases a.len(),
{
    if a.len() > 0 {
        lemma_text_le_reflexive(a.drop_first());
    }
}

/// Two texts that each come before or equal the other are the same text.
pub proof fn lemma_text_le_antisymmetric(a: Seq<char>, b: Seq<char>)
    requires
        text_le(a, b),
        text_le(b, a),
    ensures
        a == b,
    decreases a.len(),
{
    if a.len() == 0 || b.len() == 0 {
        assert(a =~= b);
    } else {
        lemma_text_le_antisymmetric(a.drop_first(), b.drop_first());
        assert(a =~= seq![a[0]] + a.drop_first());
        assert(b =~= seq![b[0]] + b.drop_first());
    }
}

/// The order carries over a text in the middle.
pub proof fn lemma_text_le_transitive(a: Seq<char>, b: Seq<char>, c: Seq<char>)
    requires
        text_le(a, b),
        text_le(b, c),
    ensures
        text_le(a, c),
    decreases a.len(),
{
    if a.len() > 0 && b.len() > 0 && c.len() > 0 {
        if a[0] == b[0] && b[0] == c[0] {
            lemma_text_le_transitive(a.drop_first(), b.drop_first(), c.drop_first());
        }
    }
}

/// Of any two texts, one comes before or equals the other.
pub proof fn lemma_text_le_connected(a: Seq<char>, b: Seq<char>)
    ensures
        text_le(a, b) || text_le(b, a),
    decreases a.len(),
{
    if a.len() > 0 && b.len() > 0 && a[0] == b[0] {
        lemma_text_le_connected(a.drop_first(), b.drop_first());
    }
}

/// The lexicographic order is a total order.
pub proof fn lemma_text_order_total()
    ensures
        total_ordering(text_order()),
{
    let r = text_order();
    assert forall|x: Seq<char>| #[trigger] r(x, x) by {
        lemma_text_le_reflexive(x);
    }
    assert forall|x: Seq<char>, y: Seq<char>| #[trigger] r(x, y) && #[trigger] r(y, x) implies x
        == y by {
        lemma_text_le_antisymmetric(x, y);
    }
    assert forall|x: Seq<char>, y: Seq<char>, z: Seq<char>| #[trigger]
        r(x, y) && #[trigger] r(y, z) implies r(x, z) by {
        lemma_text_le_transitive(x, y, z);
    }
    assert forall|x: Seq<char>, y: Seq<char>| #[trigger] r(x, y) || #[trigger] r(y, x) by {
        lemma_text_le_connected(x, y);
    }
}

/// Tells whether `a` comes before `b`, or equals it, in lexicographic order.
pub fn precedes(a: &str, b: &str) -> (r: bool)
    ensures
        r == text_le(a@, b@),
{
    if a.is_ascii() && b.is_ascii() {
        precedes_ascii(a, b)
    } else {
        precedes_chars(a, b)
    }
}

/// [`precedes`] for any two texts, one character at a time.
fn precedes_chars(a: &str, b: &str) -> (r: bool)
    ensures
        r == text_le(a@, b@),
{
    let n = a.unicode_len();
    let m = b.unicode_len();
    proof {
        assert(a@.subrange(0, a@.len() as int) == a@);
        assert(b@.subrange(0, b@.len() as int) == b@);
    }
    let mut i: usize = 0;
    while i < n && i < m
        invariant
            i <= n,
            i <= m,
            n == a@.len(),
            m == b@.len(),
            text_le(a@, b@) == text_le(
                a@.subrange(i as int, a@.len() as int),
                b@.subrange(i as int, b@.len() as int),
            ),
        decreases n - i,
    {
        let ca = a.get_char(i);
        let cb = b.get_char(i);
        proof {
            let ra = a@.subrange(i as int, a@.len() as int);
            let rb = b@.subrange(i as int, b@.len() as int);
            assert(ra[0] == a@[i as int]);
            assert(rb[0] == b@[i as int]);
            assert(ra.drop_first() == a@.subrange(i + 1, a@.len() as int));
            assert(rb.drop_first() == b@.subrange(i + 1, b@.len() as int));
        }
        if ca != cb {
            return ca < cb;
        }
        i += 1;
    }
    i == n
}

/// [`precedes`] for ASCII texts, on their bytes.
fn precedes_ascii(a: &str, b: &str) -> (r: bool)
    requires
        is_ascii_chars(a@),
        is_ascii_chars(b@),
    ensures
        r == text_le(a@, b@),
{
    let x = a.as_bytes();
    let y = b.as_bytes();
    proof {
        is_ascii_chars_encode_utf8(a@);
        is_ascii_chars_encode_utf8(b@);
        assert(a@.subrange(0, a@.len() as int) == a@);
        assert(b@.subrange(0, b@.len() as int) == b@);
    }
    let mut i: usize = 0;
    while i < x.len() && i < y.len()
        invariant
            i <= x@.len(),
            i <= y@.len(),
            x@.len() == a@.len(),
            y@.len() == b@.len(),
            is_ascii_chars(a@),
            is_ascii_chars(b@),
            forall|k: int| 0 <= k < a@.len() ==> a@[k] as u8 == #[trigger] x@[k],
            forall|k: int| 0 <= k < b@.len() ==> b@[k] as u8 == #[trigger] y@[k],
            text_le(a@, b@) == text_le(
                a@.subrange(i as int, a@.len() as int),
                b@.subrange(i as int, b@.len() as int),
            ),
        decreases x@.len() - i,
    {
        let ghost ra = a@.subrange(i as int, a@.len() as int);
        let ghost rb = b@.subrange(i as int, b@.len() as int);
        proof {
            assert(ra[0] == a@[i as int]);
            assert(rb[0] == b@[i as int]);
            assert(ra.drop_first() == a@.subrange(i + 1, a@.len() as int));
            assert(rb.drop_first() == b@.subrange(i + 1, b@.len() as int));
            assert(x@[i as int] == a@[i as int] as u8);
            assert(y@[i as int] == b@[i as int] as u8);
        }
        if x[i] != y[i] {
            return x[i] < y[i];
        }
        i += 1;
    }
    i == x.len()
}

/// The parts in order, with the separator between each two neighbours.
pub open spec fn joined(parts: Seq<Seq<char>>, sep: Seq<char>) -> Seq<char>
    decreases parts.len(),
{
    if parts.len() == 0 {
        Seq::empty()
    } else if parts.len() == 1 {
        parts[0]
    } else {
        joined(parts.drop_last(), sep) + sep + parts.last()
    }
}

/// A joined text begins with its first part.
pub proof fn lemma_joined_starts_with_first(parts: Seq<Seq<char>>, sep: Seq<char>)
    requires
        parts.len() >= 1,
    ensures
        joined(parts, sep).len() >= parts[0].len(),
        joined(parts, sep).subrange(0, parts[0].len() as int) == parts[0],
    decreases parts.len(),
{
    if parts.len() == 1 {
        assert(joined(parts, sep).subrange(0, parts[0].len() as int) =~= parts[0]);
    } else {
        let front = parts.drop_last();
        lemma_joined_starts_with_first(front, sep);
        assert(front[0] == parts[0]);
        let whole = joined(parts, sep);
        assert(whole == joined(front, sep) + sep + parts.last());
        assert(whole.subrange(0, parts[0].len() as int) =~= joined(front, sep).subrange(
            0,
            parts[0].len() as int,
        ));
    }
}

/// Joins the parts with the separator between them.
pub fn join(parts: &Vec<String>, sep: &str) -> (out: String)
    ensures
        out@ == joined(parts.deep_view(), sep@),
{
    let mut out = String::new();
    let mut i: usize = 0;
    while i < parts.len()
        invariant
            i <= parts@.len(),
            out@ == joined(parts.deep_view().subrange(0, i as int), sep@),
        decreases parts@.len() - i,
    {
        let ghost before = parts.deep_view().subrange(0, i as int);
        let ghost after = parts.deep_view().subrange(0, i + 1);
        proof {
            assert(after.drop_last() == before);
            assert(after.last() == parts@[i as int]@);
        }
        if i > 0 {
            out.append(sep);
        } else {
            proof {
                assert(out@ + parts@[i as int]@ == parts@[i as int]@);
            }
        }
        out.append(parts[i].as_str());
        i += 1;
    }
    proof {
        assert(parts.deep_view().subrange(0, i as int) == parts.deep_view());
    }
    out
}

/// Puts `item` into a sorted list at the place that keeps the list sorted.
pub fn insert_sorted(list: &mut Vec<String>, item: String)
    requires
        sorted_by(old(list).deep_view(), text_order()),
    ensures
        sorted_by(final(list).deep_view(), text_order()),
        final(list).deep_view().to_multiset() == old(list).deep_view().to_multiset().insert(item@),
        final(list)@.len() == old(list)@.len() + 1,
{
    let mut i: usize = 0;
    while i < list.len() && precedes(list[i].as_str(), item.as_str())
        invariant
            i <= list@.len(),
            *list == *old(list),
            forall|k: int| 0 <= k < i ==> text_le(#[trigger] list@[k]@, item@),
        decreases list@.len() - i,
    {
        i += 1;
    }
    let ghost before = list.deep_view();
    proof {
        assert forall|k: int| i <= k < before.len() implies text_le(item@, #[trigger] before[k]) by {
            lemma_text_le_connected(item@, before[i as int]);
            if k == i {
                lemma_text_le_reflexive(before[k]);
            } else {
                assert(text_order()(before[i as int], before[k]));
            }
            lemma_text_le_transitive(item@, before[i as int], before[k]);
        }
    }
    list.insert(i, item);
    proof {
        let after = list.deep_view();
        assert(after =~= before.insert(i as int, item@));
        vstd::seq_lib::to_multiset_insert(before, i as int, item@);
        assert forall|x: int, y: int| 0 <= x < y < after.len() implies #[trigger] text_order()(
            after[x],
            after[y],
        ) by {
            if y < i {
                assert(text_order()(before[x], before[y]));
            } else if y == i {
                assert(text_le(list@[x]@, item@));
            } else if x < i {
                assert(text_order()(before[x], before[y - 1]));
            } else if x == i {
                assert(text_le(item@, before[y - 1]));
            } else {
                assert(text_order()(before[x - 1], before[y - 1]));
            }
        }
    }
}

/// The character of a decimal digit.
pub open spec fn digit_char(d: int) -> char {
    ((0x30 + d) as u8) as char
}

/// The decimal digits of a natural number, most significant first, without
/// leading zeros.
pub open spec fn decimal_digits(n: nat) -> Seq<char>
    decreases n,
{
    if n < 10 {
        seq![digit_char(n as int)]
    } else {
        decimal_digits(n / 10).push(digit_char((n % 10) as int))
    }
}

/// An integer in decimal, with a leading `-` when it is negative.
pub open spec fn decimal_text(n: int) -> Seq<char> {
    if n < 0 {
        seq!['-'] + decimal_digits((-n) as nat)
    } else {
        decimal_digits(n as nat)
    }
}

/// The decimal digits of a number are at least one, and each is one of `0`
/// to `9`.
pub proof fn lemma_decimal_digits_shape(n: nat)
    ensures
        decimal_digits(n).len() >= 1,
        forall|i: int|
            0 <= i < decimal_digits(n).len() ==> '0' <= #[trigger] decimal_digits(n)[i]
                && decimal_digits(n)[i] <= '9',
    decreases n,
{
    if n >= 10 {
        lemma_decimal_digits_shape(n / 10);
    }
}

/// Two numbers with the same decimal digits are the same number.
pub proof fn lemma_decimal_digits_injective(a: nat, b: nat)
    requires
        decimal_digits(a) == decimal_digits(b),
    ensures
        a == b,
    decreases a,
{
    lemma_decimal_digits_shape(a / 10);
    lemma_decimal_digits_shape(b / 10);
    if a < 10 && b < 10 {
        assert(decimal_digits(a)[0] == digit_char(a as int));
        assert(decimal_digits(b)[0] == digit_char(b as int));
        lemma_digit_char_injective(a as int, b as int);
    } else if a >= 10 && b >= 10 {
        let x = decimal_digits(a / 10);
        let y = decimal_digits(b / 10);
        let da = digit_char((a % 10) as int);
        let db = digit_char((b % 10) as int);
        assert(decimal_digits(a) == x.push(da));
        assert(decimal_digits(b) == y.push(db));
        assert(x.push(da).last() == da);
        assert(y.push(db).last() == db);
        assert(x.push(da).drop_last() == x);
        assert(y.push(db).drop_last() == y);
        lemma_digit_char_injective((a % 10) as int, (b % 10) as int);
        lemma_decimal_digits_injective(a / 10, b / 10);
    } else if a < 10 {
        assert(decimal_digits(a).len() == 1);
        assert(decimal_digits(b).len() == decimal_digits(b / 10).len() + 1);
    } else {
        assert(decimal_digits(b).len() == 1);
        assert(decimal_digits(a).len() == decimal_digits(a / 10).len() + 1);
    }
}

/// Two digits with the same character are the same digit.
pub proof fn lemma_digit_char_injective(a: int, b: int)
    requires
        0 <= a < 10,
        0 <= b < 10,
        digit_char(a) == digit_char(b),
    ensures
        a == b,
{
    assert(digit_char(a) as u32 == 0x30 + a);
    assert(digit_char(b) as u32 == 0x30 + b);
}

/// Writes a natural number in decimal.
pub fn digits_string(n: u64) -> (out: String)
    ensures
        out@ == decimal_digits(n as nat),
{
    let mut out = String::new();
    append_digits(&mut out, n);
    out
}

/// Appends the decimal digits of a number to a text.
fn append_digits(out: &mut String, n: u64)
    ensures
        final(out)@ == old(out)@ + decimal_digits(n as nat),
{
    let mut low: Vec<char> = Vec::new();
    let mut rest: u64 = n;
    while rest >= 10
        invariant
            decimal_digits(n as nat) == decimal_digits(rest as nat) + low@.reverse(),
        decreases rest,
    {
        let d: u8 = (rest % 10) as u8;
        let ghost before = low@;
        low.push((0x30 + d) as char);
        proof {
            let c = digit_char((rest % 10) as int);
            assert(low@ == before.push(c));
            assert(low@.reverse() =~= seq![c] + before.reverse());
            assert(decimal_digits(rest as nat) == decimal_digits((rest / 10) as nat).push(c));
            assert(decimal_digits((rest / 10) as nat).push(c) + before.reverse()
                =~= decimal_digits((rest / 10) as nat) + (seq![c] + before.reverse()));
        }
        rest = rest / 10;
    }
    out.push((0x30 + (rest as u8)) as char);
    let ghost head = out@;
    proof {
        assert(decimal_digits(rest as nat) =~= seq![digit_char(rest as int)]);
        assert(head =~= old(out)@ + decimal_digits(rest as nat));
    }
    let mut i: usize = low.len();
    while i > 0
        invariant
            i <= low@.len(),
            out@ == head + low@.reverse().subrange(0, low@.len() - i),
        decreases i,
    {
        i -= 1;
        out.push(low[i]);
        proof {
            let r = low@.reverse();
            let k = low@.len() - i - 1;
            assert(r[k] == low@[i as int]);
            assert(r.subrange(0, k + 1) =~= r.subrange(0, k).push(r[k]));
            assert(out@ =~= head + r.subrange(0, k + 1));
        }
    }
    proof {
        let r = low@.reverse();
        assert(r.subrange(0, r.len() as int) =~= r);
        assert(out@ =~= old(out)@ + decimal_digits(n as nat));
    }
}

/// Writes an integer in decimal.
pub fn decimal_string(n: i64) -> (out: String)
    ensures
        out@ == decimal_text(n as int),
{
    let mut out = String::new();
    if n < 0 {
        out.push('-');
        let magnitude: u64 = ((-(n + 1)) as u64) + 1;
        assert(magnitude as int == -(n as int));
        append_digits(&mut out, magnitude);
    } else {
        append_digits(&mut out, n as u64);
        assert(out@ =~= decimal_digits(n as nat));
    }
    out
}

} // verus!
